//! Recursive-descent parser for GROQ query text.
//!
//! [`parse`] tokenizes its input and builds an [`Expr`] with single-token
//! lookahead. Two grammar quirks of the language are preserved exactly:
//! `&&` and `||` share one precedence tier and associate to the right (so
//! `a && b || c` parses as `And(a, Or(b, c))`), and an unrecognized pipe
//! stage falls back to plain filter-expression parsing rather than
//! erroring.
//!
//! One deliberate extension: a bare `*` is accepted as a primary and
//! parses to `Everything`, so that the whole dataset can stand as a
//! function argument — `count(*)` — or as an operand; without it such
//! calls cannot parse at all.
//!
//! The grammar is mirrored by fuel-bounded spec functions (`sp_expr` and
//! friends); the contract of every parsing method ties its result to them
//! for every sufficiently large fuel, so [`parse`]'s result equals
//! [`spec_parse`] of the input text.

use vstd::prelude::*;
use crate::ast::{Expr, SpecExpr};
use crate::lexer::{tokenize, LexError, SpannedToken, SpecToken, Token, tokens_view, spec_tokenize};

verus! {

/// A parsing failure.
#[derive(Debug, Clone, PartialEq)]
pub enum ParseError {
    /// Tokenization failed before parsing began.
    Lex(LexError),
    /// A token that does not fit the grammar here. `expected` names the one
    /// token that would have fit, or is `None` where an expression was
    /// expected.
    UnexpectedToken { found: Token, expected: Option<Token> },
    /// The input ended in the middle of a construct.
    UnexpectedEof,
}

/// The view of a [`ParseError`].
pub enum SpecParseError {
    Lex(LexError),
    UnexpectedToken { found: SpecToken, expected: Option<SpecToken> },
    UnexpectedEof,
}

impl View for ParseError {
    type V = SpecParseError;

    open spec fn view(&self) -> SpecParseError {
        match self {
            ParseError::Lex(le) => SpecParseError::Lex(*le),
            ParseError::UnexpectedToken { found, expected } => SpecParseError::UnexpectedToken {
                found: found@,
                expected: match expected {
                    Some(t) => Some(t@),
                    None => None,
                },
            },
            ParseError::UnexpectedEof => SpecParseError::UnexpectedEof,
        }
    }
}

/// The token at `pos`, with `Eof` standing in beyond the end.
pub open spec fn peek_tok(ts: Seq<SpecToken>, pos: int) -> SpecToken {
    if 0 <= pos < ts.len() {
        ts[pos]
    } else {
        SpecToken::Eof
    }
}

/// One step forward, capped at the end of the token stream.
pub open spec fn adv(ts: Seq<SpecToken>, pos: int) -> int {
    if pos < ts.len() {
        pos + 1
    } else {
        pos
    }
}

/// Skip one comma, if one is next: the comma tolerance between projection
/// fields.
pub open spec fn skip_comma(ts: Seq<SpecToken>, pos: int) -> int {
    if peek_tok(ts, pos) is Comma {
        adv(ts, pos)
    } else {
        pos
    }
}

/// Fuel that provably suffices for the grammar functions below on a token
/// stream of length `n` starting at `pos`, offset by a small per-function
/// rank `k`.
pub open spec fn pfuel(n: int, pos: int, k: int) -> nat {
    if 6 * (n - pos) + k >= 0 {
        (6 * (n - pos) + k) as nat
    } else {
        0
    }
}

/// The trailing `.field` chain after a primary: each `.` followed by an
/// identifier extends the chain; a `.` followed by anything else is
/// consumed and ends it.
pub open spec fn sp_dots(ts: Seq<SpecToken>, pos: int, cur: SpecExpr, fuel: nat) -> Option<
    (SpecExpr, int),
>
    decreases fuel,
{
    if fuel == 0 {
        None
    } else if peek_tok(ts, pos) is Dot {
        let p1 = adv(ts, pos);
        match peek_tok(ts, p1) {
            SpecToken::Ident(name) => sp_dots(
                ts,
                adv(ts, p1),
                SpecExpr::DotAccess(Box::new(cur), name),
                (fuel - 1) as nat,
            ),
            _ => Some((cur, p1)),
        }
    } else {
        Some((cur, pos))
    }
}

/// The `, expr`* tail of an argument or array-element list.
pub open spec fn sp_more_items(ts: Seq<SpecToken>, pos: int, fuel: nat) -> Option<
    Result<(Seq<SpecExpr>, int), SpecParseError>,
>
    decreases fuel,
{
    if fuel == 0 {
        None
    } else if peek_tok(ts, pos) is Comma {
        let p1 = adv(ts, pos);
        match sp_filter(ts, p1, (fuel - 1) as nat) {
            None => None,
            Some(Err(e)) => Some(Err(e)),
            Some(Ok((e, p2))) => match sp_more_items(ts, p2, (fuel - 1) as nat) {
                None => None,
                Some(Err(er)) => Some(Err(er)),
                Some(Ok((rest, p3))) => Some(Ok((seq![e] + rest, p3))),
            },
        }
    } else {
        Some(Ok((Seq::empty(), pos)))
    }
}

/// A primary expression: identifier with access chain and optional call,
/// literal, `@`, `^`, prefix `!`, parenthesized filter, bracketed array,
/// or a bare `*` (the whole-dataset argument of calls such as `count(*)`).
pub open spec fn sp_primary(ts: Seq<SpecToken>, pos: int, fuel: nat) -> Option<
    Result<(SpecExpr, int), SpecParseError>,
>
    decreases fuel,
{
    if fuel == 0 {
        None
    } else {
        match peek_tok(ts, pos) {
            SpecToken::Ident(name) => {
                let p1 = adv(ts, pos);
                match sp_dots(ts, p1, SpecExpr::Ident(name), (fuel - 1) as nat) {
                    None => None,
                    Some((e1, p2)) => {
                        let step = if peek_tok(ts, p2) is Arrow {
                            let pa = adv(ts, p2);
                            match peek_tok(ts, pa) {
                                SpecToken::Ident(f) => (
                                    SpecExpr::Deref(Box::new(e1), f),
                                    adv(ts, pa),
                                ),
                                _ => (e1, pa),
                            }
                        } else {
                            (e1, p2)
                        };
                        let e2 = step.0;
                        let p3 = step.1;
                        if peek_tok(ts, p3) is LParen && e2 is Ident {
                            let fname = e2->Ident_0;
                            let pl = adv(ts, p3);
                            if peek_tok(ts, pl) is RParen {
                                Some(
                                    Ok(
                                        (
                                            SpecExpr::FuncCall(fname, Seq::empty()),
                                            adv(ts, pl),
                                        ),
                                    ),
                                )
                            } else {
                                match sp_filter(ts, pl, (fuel - 1) as nat) {
                                    None => None,
                                    Some(Err(e)) => Some(Err(e)),
                                    Some(Ok((a1, pa1))) => match sp_more_items(
                                        ts,
                                        pa1,
                                        (fuel - 1) as nat,
                                    ) {
                                        None => None,
                                        Some(Err(e)) => Some(Err(e)),
                                        Some(Ok((rest, pa2))) => {
                                            if peek_tok(ts, pa2) is RParen {
                                                Some(
                                                    Ok(
                                                        (
                                                            SpecExpr::FuncCall(
                                                                fname,
                                                                seq![a1] + rest,
                                                            ),
                                                            adv(ts, pa2),
                                                        ),
                                                    ),
                                                )
                                            } else {
                                                Some(
                                                    Err(
                                                        SpecParseError::UnexpectedToken {
                                                            found: peek_tok(ts, pa2),
                                                            expected: Some(SpecToken::RParen),
                                                        },
                                                    ),
                                                )
                                            }
                                        },
                                    },
                                }
                            }
                        } else {
                            Some(Ok((e2, p3)))
                        }
                    },
                }
            },
            SpecToken::String(sv) => Some(Ok((SpecExpr::StringLiteral(sv), adv(ts, pos)))),
            SpecToken::Integer(n) => Some(Ok((SpecExpr::IntLiteral(n), adv(ts, pos)))),
            SpecToken::Float(t) => Some(Ok((SpecExpr::FloatLiteral(t), adv(ts, pos)))),
            SpecToken::Bool(b) => Some(Ok((SpecExpr::BoolLiteral(b), adv(ts, pos)))),
            SpecToken::Null => Some(Ok((SpecExpr::Null, adv(ts, pos)))),
            SpecToken::At => Some(Ok((SpecExpr::This, adv(ts, pos)))),
            SpecToken::Caret => Some(Ok((SpecExpr::Parent, adv(ts, pos)))),
            SpecToken::Not => {
                let p1 = adv(ts, pos);
                match sp_primary(ts, p1, (fuel - 1) as nat) {
                    None => None,
                    Some(Err(e)) => Some(Err(e)),
                    Some(Ok((e, p2))) => Some(Ok((SpecExpr::Not(Box::new(e)), p2))),
                }
            },
            SpecToken::LParen => {
                let p1 = adv(ts, pos);
                match sp_filter(ts, p1, (fuel - 1) as nat) {
                    None => None,
                    Some(Err(e)) => Some(Err(e)),
                    Some(Ok((e, p2))) => {
                        if peek_tok(ts, p2) is RParen {
                            Some(Ok((e, adv(ts, p2))))
                        } else {
                            Some(
                                Err(
                                    SpecParseError::UnexpectedToken {
                                        found: peek_tok(ts, p2),
                                        expected: Some(SpecToken::RParen),
                                    },
                                ),
                            )
                        }
                    },
                }
            },
            SpecToken::LBracket => {
                let p1 = adv(ts, pos);
                if peek_tok(ts, p1) is RBracket {
                    Some(Ok((SpecExpr::Array(Seq::empty()), adv(ts, p1))))
                } else {
                    match sp_filter(ts, p1, (fuel - 1) as nat) {
                        None => None,
                        Some(Err(e)) => Some(Err(e)),
                        Some(Ok((e1, p2))) => match sp_more_items(ts, p2, (fuel - 1) as nat) {
                            None => None,
                            Some(Err(e)) => Some(Err(e)),
                            Some(Ok((rest, p3))) => {
                                if peek_tok(ts, p3) is RBracket {
                                    Some(
                                        Ok(
                                            (
                                                SpecExpr::Array(seq![e1] + rest),
                                                adv(ts, p3),
                                            ),
                                        ),
                                    )
                                } else {
                                    Some(
                                        Err(
                                            SpecParseError::UnexpectedToken {
                                                found: peek_tok(ts, p3),
                                                expected: Some(SpecToken::RBracket),
                                            },
                                        ),
                                    )
                                }
                            },
                        },
                    }
                }
            },
            SpecToken::Star => Some(Ok((SpecExpr::Everything, adv(ts, pos)))),
            SpecToken::Eof => Some(Err(SpecParseError::UnexpectedEof)),
            other => Some(
                Err(SpecParseError::UnexpectedToken { found: other, expected: None }),
            ),
        }
    }
}

/// A comparison: one primary, optionally followed by one comparison
/// operator and one more primary; comparisons do not chain.
pub open spec fn sp_comparison(ts: Seq<SpecToken>, pos: int, fuel: nat) -> Option<
    Result<(SpecExpr, int), SpecParseError>,
>
    decreases fuel,
{
    if fuel == 0 {
        None
    } else {
        match sp_primary(ts, pos, (fuel - 1) as nat) {
            None => None,
            Some(Err(e)) => Some(Err(e)),
            Some(Ok((left, p1))) => {
                let t = peek_tok(ts, p1);
                if t is Eq || t is Neq || t is Lt || t is Gt || t is Lte || t is Gte || t is In {
                    let p2 = adv(ts, p1);
                    match sp_primary(ts, p2, (fuel - 1) as nat) {
                        None => None,
                        Some(Err(e)) => Some(Err(e)),
                        Some(Ok((right, p3))) => {
                            let l = Box::new(left);
                            let r = Box::new(right);
                            let e = if t is Eq {
                                SpecExpr::Eq(l, r)
                            } else if t is Neq {
                                SpecExpr::Neq(l, r)
                            } else if t is Lt {
                                SpecExpr::Lt(l, r)
                            } else if t is Gt {
                                SpecExpr::Gt(l, r)
                            } else if t is Lte {
                                SpecExpr::Lte(l, r)
                            } else if t is Gte {
                                SpecExpr::Gte(l, r)
                            } else {
                                SpecExpr::In(l, r)
                            };
                            Some(Ok((e, p3)))
                        },
                    }
                } else {
                    Some(Ok((left, p1)))
                }
            },
        }
    }
}

/// A filter expression: a comparison, then optionally `&&` or `||` and
/// another full filter expression. The two operators share one precedence
/// tier and associate to the right.
pub open spec fn sp_filter(ts: Seq<SpecToken>, pos: int, fuel: nat) -> Option<
    Result<(SpecExpr, int), SpecParseError>,
>
    decreases fuel,
{
    if fuel == 0 {
        None
    } else {
        match sp_comparison(ts, pos, (fuel - 1) as nat) {
            None => None,
            Some(Err(e)) => Some(Err(e)),
            Some(Ok((left, p1))) => {
                let t = peek_tok(ts, p1);
                if t is And || t is Or {
                    let p2 = adv(ts, p1);
                    match sp_filter(ts, p2, (fuel - 1) as nat) {
                        None => None,
                        Some(Err(e)) => Some(Err(e)),
                        Some(Ok((right, p3))) => {
                            let e = if t is And {
                                SpecExpr::And(Box::new(left), Box::new(right))
                            } else {
                                SpecExpr::Or(Box::new(left), Box::new(right))
                            };
                            Some(Ok((e, p3)))
                        },
                    }
                } else {
                    Some(Ok((left, p1)))
                }
            },
        }
    }
}

/// The fields of a `{...}` projection: spreads, quoted aliases with `:`,
/// and bare identifiers with an optional `:`; commas between fields are
/// tolerated, and an unexpected token ends the list.
pub open spec fn sp_proj_fields(ts: Seq<SpecToken>, pos: int, fuel: nat) -> Option<
    Result<(Seq<(Seq<char>, SpecExpr)>, int), SpecParseError>,
>
    decreases fuel,
{
    if fuel == 0 {
        None
    } else {
        match peek_tok(ts, pos) {
            SpecToken::RBrace => Some(Ok((Seq::empty(), pos))),
            SpecToken::Eof => Some(Ok((Seq::empty(), pos))),
            SpecToken::Ellipsis => {
                let p1 = skip_comma(ts, adv(ts, pos));
                match sp_proj_fields(ts, p1, (fuel - 1) as nat) {
                    None => None,
                    Some(Err(e)) => Some(Err(e)),
                    Some(Ok((rest, p2))) => Some(
                        Ok((seq![("..."@, SpecExpr::Everything)] + rest, p2)),
                    ),
                }
            },
            SpecToken::String(alias) => {
                let p1 = adv(ts, pos);
                if peek_tok(ts, p1) is Colon {
                    let p2 = adv(ts, p1);
                    match sp_filter(ts, p2, (fuel - 1) as nat) {
                        None => None,
                        Some(Err(e)) => Some(Err(e)),
                        Some(Ok((e, p3))) => {
                            let p4 = skip_comma(ts, p3);
                            match sp_proj_fields(ts, p4, (fuel - 1) as nat) {
                                None => None,
                                Some(Err(er)) => Some(Err(er)),
                                Some(Ok((rest, p5))) => Some(
                                    Ok((seq![(alias, e)] + rest, p5)),
                                ),
                            }
                        },
                    }
                } else {
                    Some(
                        Err(
                            SpecParseError::UnexpectedToken {
                                found: peek_tok(ts, p1),
                                expected: Some(SpecToken::Colon),
                            },
                        ),
                    )
                }
            },
            SpecToken::Ident(name) => {
                let p1 = adv(ts, pos);
                if peek_tok(ts, p1) is Colon {
                    let p2 = adv(ts, p1);
                    match sp_filter(ts, p2, (fuel - 1) as nat) {
                        None => None,
                        Some(Err(e)) => Some(Err(e)),
                        Some(Ok((e, p3))) => {
                            let p4 = skip_comma(ts, p3);
                            match sp_proj_fields(ts, p4, (fuel - 1) as nat) {
                                None => None,
                                Some(Err(er)) => Some(Err(er)),
                                Some(Ok((rest, p5))) => Some(Ok((seq![(name, e)] + rest, p5))),
                            }
                        },
                    }
                } else {
                    let p4 = skip_comma(ts, p1);
                    match sp_proj_fields(ts, p4, (fuel - 1) as nat) {
                        None => None,
                        Some(Err(er)) => Some(Err(er)),
                        Some(Ok((rest, p5))) => Some(
                            Ok((seq![(name, SpecExpr::Ident(name))] + rest, p5)),
                        ),
                    }
                }
            },
            _ => Some(Ok((Seq::empty(), pos))),
        }
    }
}

/// A pipe stage after `|`: only `order(expr [asc|desc])` is recognized;
/// any other stage falls back to plain filter-expression parsing.
pub open spec fn sp_pipe(ts: Seq<SpecToken>, pos: int, fuel: nat) -> Option<
    Result<(SpecExpr, int), SpecParseError>,
>
    decreases fuel,
{
    if fuel == 0 {
        None
    } else {
        match peek_tok(ts, pos) {
            SpecToken::Ident(name) => {
                if name == "order"@ {
                    let p1 = adv(ts, pos);
                    if peek_tok(ts, p1) is LParen {
                        let p2 = adv(ts, p1);
                        match sp_primary(ts, p2, (fuel - 1) as nat) {
                            None => None,
                            Some(Err(e)) => Some(Err(e)),
                            Some(Ok((field, p3))) => {
                                let step = if peek_tok(ts, p3) is Desc {
                                    (false, adv(ts, p3))
                                } else if peek_tok(ts, p3) is Asc {
                                    (true, adv(ts, p3))
                                } else {
                                    (true, p3)
                                };
                                let asc = step.0;
                                let p4 = step.1;
                                if peek_tok(ts, p4) is RParen {
                                    Some(
                                        Ok(
                                            (
                                                SpecExpr::Order(Box::new(field), asc),
                                                adv(ts, p4),
                                            ),
                                        ),
                                    )
                                } else {
                                    Some(
                                        Err(
                                            SpecParseError::UnexpectedToken {
                                                found: peek_tok(ts, p4),
                                                expected: Some(SpecToken::RParen),
                                            },
                                        ),
                                    )
                                }
                            },
                        }
                    } else {
                        Some(
                            Err(
                                SpecParseError::UnexpectedToken {
                                    found: peek_tok(ts, p1),
                                    expected: Some(SpecToken::LParen),
                                },
                            ),
                        )
                    }
                } else {
                    sp_filter(ts, pos, (fuel - 1) as nat)
                }
            },
            _ => sp_filter(ts, pos, (fuel - 1) as nat),
        }
    }
}

/// What follows the filter of a `*[filter]` pipeline: the closing bracket,
/// then an optional `{...}` projection or `|` pipe stage.
pub open spec fn sp_expr_tail(ts: Seq<SpecToken>, p3: int, fv: SpecExpr, fuel: nat) -> Option<
    Result<(SpecExpr, int), SpecParseError>,
>
    decreases fuel,
{
    if fuel == 0 {
        None
    } else if peek_tok(ts, p3) is RBracket {
        let p4 = adv(ts, p3);
        if peek_tok(ts, p4) is LBrace {
            let p5 = adv(ts, p4);
            match sp_proj_fields(ts, p5, (fuel - 1) as nat) {
                None => None,
                Some(Err(e)) => Some(Err(e)),
                Some(Ok((fields, p6))) => {
                    if peek_tok(ts, p6) is RBrace {
                        Some(
                            Ok(
                                (
                                    SpecExpr::Pipeline(
                                        seq![
                                            SpecExpr::Everything,
                                            SpecExpr::Filter(Box::new(fv)),
                                            SpecExpr::Projection(fields),
                                        ],
                                    ),
                                    adv(ts, p6),
                                ),
                            ),
                        )
                    } else {
                        Some(
                            Err(
                                SpecParseError::UnexpectedToken {
                                    found: peek_tok(ts, p6),
                                    expected: Some(SpecToken::RBrace),
                                },
                            ),
                        )
                    }
                },
            }
        } else if peek_tok(ts, p4) is Pipe {
            let p5 = adv(ts, p4);
            match sp_pipe(ts, p5, (fuel - 1) as nat) {
                None => None,
                Some(Err(e)) => Some(Err(e)),
                Some(Ok((pe, p6))) => Some(
                    Ok(
                        (
                            SpecExpr::Pipeline(
                                seq![SpecExpr::Everything, SpecExpr::Filter(Box::new(fv)), pe],
                            ),
                            p6,
                        ),
                    ),
                ),
            }
        } else {
            Some(
                Ok(
                    (
                        SpecExpr::Pipeline(
                            seq![SpecExpr::Everything, SpecExpr::Filter(Box::new(fv))],
                        ),
                        p4,
                    ),
                ),
            )
        }
    } else {
        Some(
            Err(
                SpecParseError::UnexpectedToken {
                    found: peek_tok(ts, p3),
                    expected: Some(SpecToken::RBracket),
                },
            ),
        )
    }
}

/// A top-level expression: a bare `*`, a `*[filter]` pipeline with an
/// optional projection or pipe stage, or a plain filter expression.
pub open spec fn sp_expr(ts: Seq<SpecToken>, pos: int, fuel: nat) -> Option<
    Result<(SpecExpr, int), SpecParseError>,
>
    decreases fuel,
{
    if fuel == 0 {
        None
    } else if peek_tok(ts, pos) is Star {
        let p1 = adv(ts, pos);
        if peek_tok(ts, p1) is LBracket {
            let p2 = adv(ts, p1);
            match sp_filter(ts, p2, (fuel - 1) as nat) {
                None => None,
                Some(Err(e)) => Some(Err(e)),
                Some(Ok((f, p3))) => sp_expr_tail(ts, p3, f, (fuel - 1) as nat),
            }
        } else {
            Some(Ok((SpecExpr::Everything, p1)))
        }
    } else {
        sp_filter(ts, pos, (fuel - 1) as nat)
    }
}

/// The token stream a spanned-token sequence carries.
pub open spec fn stream_of(sts: Seq<crate::lexer::SpecSpannedToken>) -> Seq<SpecToken> {
    Seq::new(sts.len(), |i: int| sts[i].token)
}

/// What [`parse`] returns: the expression parsed from the front of the
/// token stream of `s` (trailing tokens are not rejected), or the first
/// lexing or parsing failure.
pub open spec fn spec_parse(s: Seq<char>) -> Result<SpecExpr, SpecParseError> {
    match spec_tokenize(s, 0) {
        Err(le) => Err(SpecParseError::Lex(le)),
        Ok(sts) => {
            let ts = stream_of(sts);
            match sp_expr(ts, 0, pfuel(ts.len() as int, 0, 6)) {
                Some(Ok((e, _))) => Ok(e),
                Some(Err(pe)) => Err(pe),
                None => Err(SpecParseError::UnexpectedEof),
            }
        },
    }
}

/// Equality of two tokens' views.
fn token_eq(a: &Token, b: &Token) -> (r: bool)
    ensures
        r == (a@ == b@),
{
    match (a, b) {
        (Token::String(x), Token::String(y)) => crate::text::str_eq(x.as_str(), y.as_str()),
        (Token::Integer(x), Token::Integer(y)) => x == y,
        (Token::Float(x), Token::Float(y)) => crate::text::str_eq(x.as_str(), y.as_str()),
        (Token::Bool(x), Token::Bool(y)) => x == y,
        (Token::Null, Token::Null) => true,
        (Token::Ident(x), Token::Ident(y)) => crate::text::str_eq(x.as_str(), y.as_str()),
        (Token::Eq, Token::Eq) => true,
        (Token::Neq, Token::Neq) => true,
        (Token::Lt, Token::Lt) => true,
        (Token::Gt, Token::Gt) => true,
        (Token::Lte, Token::Lte) => true,
        (Token::Gte, Token::Gte) => true,
        (Token::And, Token::And) => true,
        (Token::Or, Token::Or) => true,
        (Token::Not, Token::Not) => true,
        (Token::Match, Token::Match) => true,
        (Token::In, Token::In) => true,
        (Token::Asc, Token::Asc) => true,
        (Token::Desc, Token::Desc) => true,
        (Token::Star, Token::Star) => true,
        (Token::Dot, Token::Dot) => true,
        (Token::Comma, Token::Comma) => true,
        (Token::Colon, Token::Colon) => true,
        (Token::Pipe, Token::Pipe) => true,
        (Token::Arrow, Token::Arrow) => true,
        (Token::At, Token::At) => true,
        (Token::Caret, Token::Caret) => true,
        (Token::Ellipsis, Token::Ellipsis) => true,
        (Token::LParen, Token::LParen) => true,
        (Token::RParen, Token::RParen) => true,
        (Token::LBracket, Token::LBracket) => true,
        (Token::RBracket, Token::RBracket) => true,
        (Token::LBrace, Token::LBrace) => true,
        (Token::RBrace, Token::RBrace) => true,
        (Token::Eof, Token::Eof) => true,
        _ => false,
    }
}

/// A copy of a token with the same view.
fn token_copy(t: &Token) -> (r: Token)
    ensures
        r@ == t@,
{
    match t {
        Token::String(s) => Token::String(s.clone()),
        Token::Integer(n) => Token::Integer(*n),
        Token::Float(x) => Token::Float(x.clone()),
        Token::Bool(b) => Token::Bool(*b),
        Token::Null => Token::Null,
        Token::Ident(s) => Token::Ident(s.clone()),
        Token::Eq => Token::Eq,
        Token::Neq => Token::Neq,
        Token::Lt => Token::Lt,
        Token::Gt => Token::Gt,
        Token::Lte => Token::Lte,
        Token::Gte => Token::Gte,
        Token::And => Token::And,
        Token::Or => Token::Or,
        Token::Not => Token::Not,
        Token::Match => Token::Match,
        Token::In => Token::In,
        Token::Asc => Token::Asc,
        Token::Desc => Token::Desc,
        Token::Star => Token::Star,
        Token::Dot => Token::Dot,
        Token::Comma => Token::Comma,
        Token::Colon => Token::Colon,
        Token::Pipe => Token::Pipe,
        Token::Arrow => Token::Arrow,
        Token::At => Token::At,
        Token::Caret => Token::Caret,
        Token::Ellipsis => Token::Ellipsis,
        Token::LParen => Token::LParen,
        Token::RParen => Token::RParen,
        Token::LBracket => Token::LBracket,
        Token::RBracket => Token::RBracket,
        Token::LBrace => Token::LBrace,
        Token::RBrace => Token::RBrace,
        Token::Eof => Token::Eof,
    }
}

/// The parser state: the token stream and a cursor into it.
struct Parser {
    tokens: Vec<SpannedToken>,
    pos: usize,
}

impl Parser {
    /// The cursor never runs past the end of the stream.
    spec fn wf(self) -> bool {
        self.pos <= self.tokens@.len()
    }

    /// The bare token stream, spans dropped.
    spec fn toks(self) -> Seq<SpecToken> {
        Seq::new(self.tokens@.len(), |i: int| self.tokens@[i].token@)
    }

    fn new(tokens: Vec<SpannedToken>) -> (p: Parser)
        ensures
            p.wf(),
            p.pos == 0,
            p.tokens == tokens,
    {
        Parser { tokens, pos: 0 }
    }

    /// The current token, with `Eof` standing in beyond the end.
    fn peek(&self) -> (t: &Token)
        ensures
            t@ == peek_tok(self.toks(), self.pos as int),
    {
        if self.pos < self.tokens.len() {
            &self.tokens[self.pos].token
        } else {
            &Token::Eof
        }
    }

    /// Step past the current token.
    fn advance(&mut self)
        requires
            old(self).wf(),
        ensures
            final(self).wf(),
            final(self).tokens == old(self).tokens,
            final(self).pos as int == adv(old(self).toks(), old(self).pos as int),
    {
        if self.pos < self.tokens.len() {
            self.pos = self.pos + 1;
        }
    }

    /// Consume one token, which must be `expected`.
    fn expect(&mut self, expected: Token) -> (r: Result<(), ParseError>)
        requires
            old(self).wf(),
        ensures
            final(self).wf(),
            final(self).tokens == old(self).tokens,
            final(self).pos as int == adv(old(self).toks(), old(self).pos as int),
            match r {
                Ok(_) => peek_tok(old(self).toks(), old(self).pos as int) == expected@,
                Err(pe) => peek_tok(old(self).toks(), old(self).pos as int) != expected@
                    && pe@ == (SpecParseError::UnexpectedToken {
                    found: peek_tok(old(self).toks(), old(self).pos as int),
                    expected: Some(expected@),
                }),
            },
    {
        let matched = token_eq(self.peek(), &expected);
        if matched {
            self.advance();
            Ok(())
        } else {
            let found = token_copy(self.peek());
            self.advance();
            Err(ParseError::UnexpectedToken { found, expected: Some(expected) })
        }
    }

    /// Parse the trailing `.field` chain extending `cur`.
    #[verifier::rlimit(100)]
    #[verifier::spinoff_prover]
    fn parse_dots(&mut self, cur: Expr) -> (r: Expr)
        requires
            old(self).wf(),
        ensures
            final(self).wf(),
            final(self).tokens == old(self).tokens,
            old(self).pos <= final(self).pos,
            forall|f: nat|
                f >= pfuel(old(self).toks().len() as int, old(self).pos as int, 1)
                    ==> #[trigger] sp_dots(old(self).toks(), old(self).pos as int, cur@, f)
                    == Some((r@, final(self).pos as int)),
        decreases old(self).tokens@.len() - old(self).pos, 0int,
    {
        let ghost ts = self.toks();
        let ghost n = ts.len() as int;
        let ghost p0 = self.pos as int;
        let is_dot = matches!(self.peek(), Token::Dot);
        if !is_dot {
            return cur;
        }
        self.advance();
        let ghost p1 = self.pos as int;
        let name_opt: Option<String> = match self.peek() {
            Token::Ident(nm) => Some(nm.clone()),
            _ => None,
        };
        match name_opt {
            Some(nm) => {
                self.advance();
                let ghost p2 = self.pos as int;
                let ghost nmv = nm@;
                let next = Expr::DotAccess(Box::new(cur), nm);
                let ghost nextv = next@;
                let r = self.parse_dots(next);
                proof {
                    assert forall|f: nat| f >= pfuel(n, p0, 1) implies #[trigger] sp_dots(
                        ts,
                        p0,
                        cur@,
                        f,
                    ) == Some((r@, self.pos as int)) by {
                        let f1 = (f - 1) as nat;
                        assert(f1 >= pfuel(n, p2, 1));
                        assert(sp_dots(ts, p2, nextv, f1) == Some((r@, self.pos as int)));
                    }
                }
                r
            },
            None => {
                cur
            },
        }
    }

    /// Parse the `, expr`* tail of an argument or array-element list.
    #[verifier::rlimit(100)]
    #[verifier::spinoff_prover]
    fn parse_more_items(&mut self) -> (r: Result<Vec<Expr>, ParseError>)
        requires
            old(self).wf(),
        ensures
            final(self).wf(),
            final(self).tokens == old(self).tokens,
            old(self).pos <= final(self).pos,
            match r {
                Ok(items) => forall|f: nat|
                    f >= pfuel(old(self).toks().len() as int, old(self).pos as int, 1)
                        ==> #[trigger] sp_more_items(old(self).toks(), old(self).pos as int, f)
                        == Some(
                        Ok::<(Seq<SpecExpr>, int), SpecParseError>(
                            (crate::ast::exprs_view(items@), final(self).pos as int),
                        ),
                    ),
                Err(pe) => forall|f: nat|
                    f >= pfuel(old(self).toks().len() as int, old(self).pos as int, 1)
                        ==> #[trigger] sp_more_items(old(self).toks(), old(self).pos as int, f)
                        == Some(Err::<(Seq<SpecExpr>, int), SpecParseError>(pe@)),
            },
        decreases old(self).tokens@.len() - old(self).pos, 0int,
    {
        let ghost ts = self.toks();
        let ghost n = ts.len() as int;
        let ghost p0 = self.pos as int;
        let is_comma = matches!(self.peek(), Token::Comma);
        if !is_comma {
            let items: Vec<Expr> = Vec::new();
            proof {
                assert(crate::ast::exprs_view(items@) =~= Seq::<SpecExpr>::empty());
            }
            return Ok(items);
        }
        self.advance();
        let ghost p1 = self.pos as int;
        match self.parse_filter_expr() {
            Err(pe) => {
                proof {
                    assert forall|f: nat| f >= pfuel(n, p0, 1) implies #[trigger] sp_more_items(
                        ts,
                        p0,
                        f,
                    ) == Some(Err::<(Seq<SpecExpr>, int), SpecParseError>(pe@)) by {
                        let f1 = (f - 1) as nat;
                        assert(f1 >= pfuel(n, p1, 4));
                        assert(sp_filter(ts, p1, f1) == Some(
                            Err::<(SpecExpr, int), SpecParseError>(pe@),
                        ));
                    }
                }
                Err(pe)
            },
            Ok(e) => {
                let ghost ev = e@;
                let ghost p2 = self.pos as int;
                match self.parse_more_items() {
                    Err(pe) => {
                        proof {
                            assert forall|f: nat| f >= pfuel(n, p0, 1) implies
                                #[trigger] sp_more_items(ts, p0, f) == Some(
                                Err::<(Seq<SpecExpr>, int), SpecParseError>(pe@),
                            ) by {
                                let f1 = (f - 1) as nat;
                                assert(f1 >= pfuel(n, p1, 4));
                                assert(sp_filter(ts, p1, f1) == Some(
                                    Ok::<(SpecExpr, int), SpecParseError>((ev, p2)),
                                ));
                                assert(f1 >= pfuel(n, p2, 1));
                                assert(sp_more_items(ts, p2, f1) == Some(
                                    Err::<(Seq<SpecExpr>, int), SpecParseError>(pe@),
                                ));
                            }
                        }
                        Err(pe)
                    },
                    Ok(rest) => {
                        let ghost restv = crate::ast::exprs_view(rest@);
                        let ghost p3 = self.pos as int;
                        let mut items = rest;
                        items.insert(0, e);
                        proof {
                            assert(crate::ast::exprs_view(items@) =~= seq![ev] + restv);
                            assert forall|f: nat| f >= pfuel(n, p0, 1) implies
                                #[trigger] sp_more_items(ts, p0, f) == Some(
                                Ok::<(Seq<SpecExpr>, int), SpecParseError>(
                                    (crate::ast::exprs_view(items@), p3),
                                ),
                            ) by {
                                let f1 = (f - 1) as nat;
                                assert(f1 >= pfuel(n, p1, 4));
                                assert(sp_filter(ts, p1, f1) == Some(
                                    Ok::<(SpecExpr, int), SpecParseError>((ev, p2)),
                                ));
                                assert(f1 >= pfuel(n, p2, 1));
                                assert(sp_more_items(ts, p2, f1) == Some(
                                    Ok::<(Seq<SpecExpr>, int), SpecParseError>((restv, p3)),
                                ));
                            }
                        }
                        Ok(items)
                    },
                }
            },
        }
    }

    /// Parse a primary expression: identifier with access chain and
    /// optional call, literal, `@`, `^`, prefix `!`, parenthesized filter,
    /// or bracketed array.
    #[verifier::rlimit(100)]
    #[verifier::spinoff_prover]
    fn parse_primary(&mut self) -> (r: Result<Expr, ParseError>)
        requires
            old(self).wf(),
        ensures
            final(self).wf(),
            final(self).tokens == old(self).tokens,
            old(self).pos <= final(self).pos,
            match r {
                Ok(e) => forall|f: nat|
                    f >= pfuel(old(self).toks().len() as int, old(self).pos as int, 2)
                        ==> #[trigger] sp_primary(old(self).toks(), old(self).pos as int, f)
                        == Some(
                        Ok::<(SpecExpr, int), SpecParseError>((e@, final(self).pos as int)),
                    ),
                Err(pe) => forall|f: nat|
                    f >= pfuel(old(self).toks().len() as int, old(self).pos as int, 2)
                        ==> #[trigger] sp_primary(old(self).toks(), old(self).pos as int, f)
                        == Some(Err::<(SpecExpr, int), SpecParseError>(pe@)),
            },
        decreases old(self).tokens@.len() - old(self).pos, 1int,
    {
        let ghost ts = self.toks();
        let ghost n = ts.len() as int;
        let ghost p0 = self.pos as int;
        let name_opt: Option<String> = match self.peek() {
            Token::Ident(nm) => Some(nm.clone()),
            _ => None,
        };
        if let Some(name) = name_opt {
            let ghost namev = name@;
            self.advance();
            let ghost p1 = self.pos as int;
            let e1 = self.parse_dots(Expr::Ident(name));
            let ghost e1v = e1@;
            let ghost p2 = self.pos as int;
            let is_arrow = matches!(self.peek(), Token::Arrow);
            let e2: Expr = if is_arrow {
                self.advance();
                let fld_opt: Option<String> = match self.peek() {
                    Token::Ident(nm) => Some(nm.clone()),
                    _ => None,
                };
                match fld_opt {
                    Some(fld) => {
                        self.advance();
                        Expr::Deref(Box::new(e1), fld)
                    },
                    None => e1,
                }
            } else {
                e1
            };
            let ghost e2v = e2@;
            let ghost p3 = self.pos as int;
            let is_lparen = matches!(self.peek(), Token::LParen);
            let is_ident_expr = matches!(&e2, Expr::Ident(_));
            if is_lparen && is_ident_expr {
                let fname: String = match e2 {
                    Expr::Ident(fn_name) => fn_name,
                    _ => String::new(),
                };
                let ghost fnamev = fname@;
                self.advance();
                let ghost pl = self.pos as int;
                let is_rparen = matches!(self.peek(), Token::RParen);
                if is_rparen {
                    self.advance();
                    let args: Vec<Expr> = Vec::new();
                    let res = Expr::FuncCall(fname, args);
                    proof {
                        assert(crate::ast::exprs_view(Seq::<Expr>::empty()) =~= Seq::<
                            SpecExpr,
                        >::empty());
                        assert forall|f: nat| f >= pfuel(n, p0, 2) implies #[trigger] sp_primary(
                            ts,
                            p0,
                            f,
                        ) == Some(
                            Ok::<(SpecExpr, int), SpecParseError>((res@, self.pos as int)),
                        ) by {
                            let f1 = (f - 1) as nat;
                            assert(f1 >= pfuel(n, p1, 1));
                            assert(sp_dots(ts, p1, SpecExpr::Ident(namev), f1) == Some(
                                (e1v, p2),
                            ));
                        }
                    }
                    return Ok(res);
                }
                match self.parse_filter_expr() {
                    Err(pe) => {
                        proof {
                            assert forall|f: nat| f >= pfuel(n, p0, 2) implies
                                #[trigger] sp_primary(ts, p0, f) == Some(
                                Err::<(SpecExpr, int), SpecParseError>(pe@),
                            ) by {
                                let f1 = (f - 1) as nat;
                                assert(f1 >= pfuel(n, p1, 1));
                                assert(sp_dots(ts, p1, SpecExpr::Ident(namev), f1) == Some(
                                    (e1v, p2),
                                ));
                                assert(f1 >= pfuel(n, pl, 4));
                                assert(sp_filter(ts, pl, f1) == Some(
                                    Err::<(SpecExpr, int), SpecParseError>(pe@),
                                ));
                            }
                        }
                        return Err(pe);
                    },
                    Ok(a1) => {
                        let ghost a1v = a1@;
                        let ghost pa1 = self.pos as int;
                        match self.parse_more_items() {
                            Err(pe) => {
                                proof {
                                    assert forall|f: nat| f >= pfuel(n, p0, 2) implies
                                        #[trigger] sp_primary(ts, p0, f) == Some(
                                        Err::<(SpecExpr, int), SpecParseError>(pe@),
                                    ) by {
                                        let f1 = (f - 1) as nat;
                                        assert(f1 >= pfuel(n, p1, 1));
                                        assert(sp_dots(ts, p1, SpecExpr::Ident(namev), f1)
                                            == Some((e1v, p2)));
                                        assert(f1 >= pfuel(n, pl, 4));
                                        assert(sp_filter(ts, pl, f1) == Some(
                                            Ok::<(SpecExpr, int), SpecParseError>((a1v, pa1)),
                                        ));
                                        assert(f1 >= pfuel(n, pa1, 1));
                                        assert(sp_more_items(ts, pa1, f1) == Some(
                                            Err::<(Seq<SpecExpr>, int), SpecParseError>(pe@),
                                        ));
                                    }
                                }
                                return Err(pe);
                            },
                            Ok(rest) => {
                                let ghost restv = crate::ast::exprs_view(rest@);
                                let ghost pa2 = self.pos as int;
                                match self.expect(Token::RParen) {
                                    Err(pe) => {
                                        proof {
                                            assert forall|f: nat| f >= pfuel(n, p0, 2) implies
                                                #[trigger] sp_primary(ts, p0, f) == Some(
                                                Err::<(SpecExpr, int), SpecParseError>(pe@),
                                            ) by {
                                                let f1 = (f - 1) as nat;
                                                assert(f1 >= pfuel(n, p1, 1));
                                                assert(sp_dots(
                                                    ts,
                                                    p1,
                                                    SpecExpr::Ident(namev),
                                                    f1,
                                                ) == Some((e1v, p2)));
                                                assert(f1 >= pfuel(n, pl, 4));
                                                assert(sp_filter(ts, pl, f1) == Some(
                                                    Ok::<(SpecExpr, int), SpecParseError>(
                                                        (a1v, pa1),
                                                    ),
                                                ));
                                                assert(f1 >= pfuel(n, pa1, 1));
                                                assert(sp_more_items(ts, pa1, f1) == Some(
                                                    Ok::<(Seq<SpecExpr>, int), SpecParseError>(
                                                        (restv, pa2),
                                                    ),
                                                ));
                                            }
                                        }
                                        return Err(pe);
                                    },
                                    Ok(_) => {
                                        let mut args = rest;
                                        args.insert(0, a1);
                                        let res = Expr::FuncCall(fname, args);
                                        proof {
                                            assert(crate::ast::exprs_view(
                                                Expr::FuncCall(
                                                    fname,
                                                    args,
                                                )->FuncCall_1@,
                                            ) =~= seq![a1v] + restv);
                                            assert forall|f: nat| f >= pfuel(n, p0, 2) implies
                                                #[trigger] sp_primary(ts, p0, f) == Some(
                                                Ok::<(SpecExpr, int), SpecParseError>(
                                                    (res@, self.pos as int),
                                                ),
                                            ) by {
                                                let f1 = (f - 1) as nat;
                                                assert(f1 >= pfuel(n, p1, 1));
                                                assert(sp_dots(
                                                    ts,
                                                    p1,
                                                    SpecExpr::Ident(namev),
                                                    f1,
                                                ) == Some((e1v, p2)));
                                                assert(f1 >= pfuel(n, pl, 4));
                                                assert(sp_filter(ts, pl, f1) == Some(
                                                    Ok::<(SpecExpr, int), SpecParseError>(
                                                        (a1v, pa1),
                                                    ),
                                                ));
                                                assert(f1 >= pfuel(n, pa1, 1));
                                                assert(sp_more_items(ts, pa1, f1) == Some(
                                                    Ok::<(Seq<SpecExpr>, int), SpecParseError>(
                                                        (restv, pa2),
                                                    ),
                                                ));
                                            }
                                        }
                                        return Ok(res);
                                    },
                                }
                            },
                        }
                    },
                }
            } else {
                proof {
                    assert forall|f: nat| f >= pfuel(n, p0, 2) implies #[trigger] sp_primary(
                        ts,
                        p0,
                        f,
                    ) == Some(Ok::<(SpecExpr, int), SpecParseError>((e2v, p3))) by {
                        let f1 = (f - 1) as nat;
                        assert(f1 >= pfuel(n, p1, 1));
                        assert(sp_dots(ts, p1, SpecExpr::Ident(namev), f1) == Some((e1v, p2)));
                    }
                }
                return Ok(e2);
            }
        }
        let str_opt: Option<String> = match self.peek() {
            Token::String(sv) => Some(sv.clone()),
            _ => None,
        };
        if let Some(sv) = str_opt {
            self.advance();
            return Ok(Expr::StringLiteral(sv));
        }
        let int_opt: Option<i64> = match self.peek() {
            Token::Integer(iv) => Some(*iv),
            _ => None,
        };
        if let Some(iv) = int_opt {
            self.advance();
            return Ok(Expr::IntLiteral(iv));
        }
        let float_opt: Option<String> = match self.peek() {
            Token::Float(fv) => Some(fv.clone()),
            _ => None,
        };
        if let Some(fv) = float_opt {
            self.advance();
            return Ok(Expr::FloatLiteral(fv));
        }
        let bool_opt: Option<bool> = match self.peek() {
            Token::Bool(bv) => Some(*bv),
            _ => None,
        };
        if let Some(bv) = bool_opt {
            self.advance();
            return Ok(Expr::BoolLiteral(bv));
        }
        if matches!(self.peek(), Token::Null) {
            self.advance();
            return Ok(Expr::Null);
        }
        if matches!(self.peek(), Token::At) {
            self.advance();
            return Ok(Expr::This);
        }
        if matches!(self.peek(), Token::Caret) {
            self.advance();
            return Ok(Expr::Parent);
        }
        if matches!(self.peek(), Token::Not) {
            self.advance();
            let ghost p1 = self.pos as int;
            match self.parse_primary() {
                Err(pe) => {
                    proof {
                        assert forall|f: nat| f >= pfuel(n, p0, 2) implies #[trigger] sp_primary(
                            ts,
                            p0,
                            f,
                        ) == Some(Err::<(SpecExpr, int), SpecParseError>(pe@)) by {
                            let f1 = (f - 1) as nat;
                            assert(f1 >= pfuel(n, p1, 2));
                            assert(sp_primary(ts, p1, f1) == Some(
                                Err::<(SpecExpr, int), SpecParseError>(pe@),
                            ));
                        }
                    }
                    return Err(pe);
                },
                Ok(inner) => {
                    let ghost innerv = inner@;
                    let res = Expr::Not(Box::new(inner));
                    proof {
                        assert forall|f: nat| f >= pfuel(n, p0, 2) implies #[trigger] sp_primary(
                            ts,
                            p0,
                            f,
                        ) == Some(
                            Ok::<(SpecExpr, int), SpecParseError>((res@, self.pos as int)),
                        ) by {
                            let f1 = (f - 1) as nat;
                            assert(f1 >= pfuel(n, p1, 2));
                            assert(sp_primary(ts, p1, f1) == Some(
                                Ok::<(SpecExpr, int), SpecParseError>((innerv, self.pos as int)),
                            ));
                        }
                    }
                    return Ok(res);
                },
            }
        }
        if matches!(self.peek(), Token::LParen) {
            self.advance();
            let ghost p1 = self.pos as int;
            match self.parse_filter_expr() {
                Err(pe) => {
                    proof {
                        assert forall|f: nat| f >= pfuel(n, p0, 2) implies #[trigger] sp_primary(
                            ts,
                            p0,
                            f,
                        ) == Some(Err::<(SpecExpr, int), SpecParseError>(pe@)) by {
                            let f1 = (f - 1) as nat;
                            assert(f1 >= pfuel(n, p1, 4));
                            assert(sp_filter(ts, p1, f1) == Some(
                                Err::<(SpecExpr, int), SpecParseError>(pe@),
                            ));
                        }
                    }
                    return Err(pe);
                },
                Ok(e) => {
                    let ghost ev = e@;
                    let ghost p2 = self.pos as int;
                    match self.expect(Token::RParen) {
                        Err(pe) => {
                            proof {
                                assert forall|f: nat| f >= pfuel(n, p0, 2) implies
                                    #[trigger] sp_primary(ts, p0, f) == Some(
                                    Err::<(SpecExpr, int), SpecParseError>(pe@),
                                ) by {
                                    let f1 = (f - 1) as nat;
                                    assert(f1 >= pfuel(n, p1, 4));
                                    assert(sp_filter(ts, p1, f1) == Some(
                                        Ok::<(SpecExpr, int), SpecParseError>((ev, p2)),
                                    ));
                                }
                            }
                            return Err(pe);
                        },
                        Ok(_) => {
                            proof {
                                assert forall|f: nat| f >= pfuel(n, p0, 2) implies
                                    #[trigger] sp_primary(ts, p0, f) == Some(
                                    Ok::<(SpecExpr, int), SpecParseError>(
                                        (ev, self.pos as int),
                                    ),
                                ) by {
                                    let f1 = (f - 1) as nat;
                                    assert(f1 >= pfuel(n, p1, 4));
                                    assert(sp_filter(ts, p1, f1) == Some(
                                        Ok::<(SpecExpr, int), SpecParseError>((ev, p2)),
                                    ));
                                }
                            }
                            return Ok(e);
                        },
                    }
                },
            }
        }
        if matches!(self.peek(), Token::LBracket) {
            self.advance();
            let ghost p1 = self.pos as int;
            if matches!(self.peek(), Token::RBracket) {
                self.advance();
                let items: Vec<Expr> = Vec::new();
                let res = Expr::Array(items);
                proof {
                    assert(crate::ast::exprs_view(Seq::<Expr>::empty()) =~= Seq::<
                        SpecExpr,
                    >::empty());
                }
                return Ok(res);
            }
            match self.parse_filter_expr() {
                Err(pe) => {
                    proof {
                        assert forall|f: nat| f >= pfuel(n, p0, 2) implies #[trigger] sp_primary(
                            ts,
                            p0,
                            f,
                        ) == Some(Err::<(SpecExpr, int), SpecParseError>(pe@)) by {
                            let f1 = (f - 1) as nat;
                            assert(f1 >= pfuel(n, p1, 4));
                            assert(sp_filter(ts, p1, f1) == Some(
                                Err::<(SpecExpr, int), SpecParseError>(pe@),
                            ));
                        }
                    }
                    return Err(pe);
                },
                Ok(e1) => {
                    let ghost e1v = e1@;
                    let ghost p2 = self.pos as int;
                    match self.parse_more_items() {
                        Err(pe) => {
                            proof {
                                assert forall|f: nat| f >= pfuel(n, p0, 2) implies
                                    #[trigger] sp_primary(ts, p0, f) == Some(
                                    Err::<(SpecExpr, int), SpecParseError>(pe@),
                                ) by {
                                    let f1 = (f - 1) as nat;
                                    assert(f1 >= pfuel(n, p1, 4));
                                    assert(sp_filter(ts, p1, f1) == Some(
                                        Ok::<(SpecExpr, int), SpecParseError>((e1v, p2)),
                                    ));
                                    assert(f1 >= pfuel(n, p2, 1));
                                    assert(sp_more_items(ts, p2, f1) == Some(
                                        Err::<(Seq<SpecExpr>, int), SpecParseError>(pe@),
                                    ));
                                }
                            }
                            return Err(pe);
                        },
                        Ok(rest) => {
                            let ghost restv = crate::ast::exprs_view(rest@);
                            let ghost p3 = self.pos as int;
                            match self.expect(Token::RBracket) {
                                Err(pe) => {
                                    proof {
                                        assert forall|f: nat| f >= pfuel(n, p0, 2) implies
                                            #[trigger] sp_primary(ts, p0, f) == Some(
                                            Err::<(SpecExpr, int), SpecParseError>(pe@),
                                        ) by {
                                            let f1 = (f - 1) as nat;
                                            assert(f1 >= pfuel(n, p1, 4));
                                            assert(sp_filter(ts, p1, f1) == Some(
                                                Ok::<(SpecExpr, int), SpecParseError>(
                                                    (e1v, p2),
                                                ),
                                            ));
                                            assert(f1 >= pfuel(n, p2, 1));
                                            assert(sp_more_items(ts, p2, f1) == Some(
                                                Ok::<(Seq<SpecExpr>, int), SpecParseError>(
                                                    (restv, p3),
                                                ),
                                            ));
                                        }
                                    }
                                    return Err(pe);
                                },
                                Ok(_) => {
                                    let mut items = rest;
                                    items.insert(0, e1);
                                    let res = Expr::Array(items);
                                    proof {
                                        assert(crate::ast::exprs_view(
                                            res->Array_0@,
                                        ) =~= seq![e1v] + restv);
                                        assert forall|f: nat| f >= pfuel(n, p0, 2) implies
                                            #[trigger] sp_primary(ts, p0, f) == Some(
                                            Ok::<(SpecExpr, int), SpecParseError>(
                                                (res@, self.pos as int),
                                            ),
                                        ) by {
                                            let f1 = (f - 1) as nat;
                                            assert(f1 >= pfuel(n, p1, 4));
                                            assert(sp_filter(ts, p1, f1) == Some(
                                                Ok::<(SpecExpr, int), SpecParseError>(
                                                    (e1v, p2),
                                                ),
                                            ));
                                            assert(f1 >= pfuel(n, p2, 1));
                                            assert(sp_more_items(ts, p2, f1) == Some(
                                                Ok::<(Seq<SpecExpr>, int), SpecParseError>(
                                                    (restv, p3),
                                                ),
                                            ));
                                        }
                                    }
                                    return Ok(res);
                                },
                            }
                        },
                    }
                },
            }
        }
        if matches!(self.peek(), Token::Star) {
            self.advance();
            return Ok(Expr::Everything);
        }
        if matches!(self.peek(), Token::Eof) {
            return Err(ParseError::UnexpectedEof);
        }
        let found = token_copy(self.peek());
        Err(ParseError::UnexpectedToken { found, expected: None })
    }

    /// Parse a comparison: one primary, optionally one comparison operator
    /// and one more primary.
    #[verifier::rlimit(100)]
    #[verifier::spinoff_prover]
    fn parse_comparison(&mut self) -> (r: Result<Expr, ParseError>)
        requires
            old(self).wf(),
        ensures
            final(self).wf(),
            final(self).tokens == old(self).tokens,
            old(self).pos <= final(self).pos,
            match r {
                Ok(e) => forall|f: nat|
                    f >= pfuel(old(self).toks().len() as int, old(self).pos as int, 3)
                        ==> #[trigger] sp_comparison(old(self).toks(), old(self).pos as int, f)
                        == Some(
                        Ok::<(SpecExpr, int), SpecParseError>((e@, final(self).pos as int)),
                    ),
                Err(pe) => forall|f: nat|
                    f >= pfuel(old(self).toks().len() as int, old(self).pos as int, 3)
                        ==> #[trigger] sp_comparison(old(self).toks(), old(self).pos as int, f)
                        == Some(Err::<(SpecExpr, int), SpecParseError>(pe@)),
            },
        decreases old(self).tokens@.len() - old(self).pos, 2int,
    {
        let ghost ts = self.toks();
        let ghost n = ts.len() as int;
        let ghost p0 = self.pos as int;
        match self.parse_primary() {
            Err(pe) => {
                proof {
                    assert forall|f: nat| f >= pfuel(n, p0, 3) implies #[trigger] sp_comparison(
                        ts,
                        p0,
                        f,
                    ) == Some(Err::<(SpecExpr, int), SpecParseError>(pe@)) by {
                        let f1 = (f - 1) as nat;
                        assert(f1 >= pfuel(n, p0, 2));
                        assert(sp_primary(ts, p0, f1) == Some(
                            Err::<(SpecExpr, int), SpecParseError>(pe@),
                        ));
                    }
                }
                Err(pe)
            },
            Ok(left) => {
                let ghost leftv = left@;
                let ghost p1 = self.pos as int;
                let is_op = matches!(
                    self.peek(),
                    Token::Eq | Token::Neq | Token::Lt | Token::Gt | Token::Lte | Token::Gte
                        | Token::In
                );
                if is_op {
                    let op = token_copy(self.peek());
                    self.advance();
                    let ghost p2 = self.pos as int;
                    match self.parse_primary() {
                        Err(pe) => {
                            proof {
                                assert forall|f: nat| f >= pfuel(n, p0, 3) implies
                                    #[trigger] sp_comparison(ts, p0, f) == Some(
                                    Err::<(SpecExpr, int), SpecParseError>(pe@),
                                ) by {
                                    let f1 = (f - 1) as nat;
                                    assert(f1 >= pfuel(n, p0, 2));
                                    assert(sp_primary(ts, p0, f1) == Some(
                                        Ok::<(SpecExpr, int), SpecParseError>((leftv, p1)),
                                    ));
                                    assert(f1 >= pfuel(n, p2, 2));
                                    assert(sp_primary(ts, p2, f1) == Some(
                                        Err::<(SpecExpr, int), SpecParseError>(pe@),
                                    ));
                                }
                            }
                            Err(pe)
                        },
                        Ok(right) => {
                            let ghost rightv = right@;
                            let e = match op {
                                Token::Eq => Expr::Eq(Box::new(left), Box::new(right)),
                                Token::Neq => Expr::Neq(Box::new(left), Box::new(right)),
                                Token::Lt => Expr::Lt(Box::new(left), Box::new(right)),
                                Token::Gt => Expr::Gt(Box::new(left), Box::new(right)),
                                Token::Lte => Expr::Lte(Box::new(left), Box::new(right)),
                                Token::Gte => Expr::Gte(Box::new(left), Box::new(right)),
                                _ => Expr::In(Box::new(left), Box::new(right)),
                            };
                            proof {
                                assert forall|f: nat| f >= pfuel(n, p0, 3) implies
                                    #[trigger] sp_comparison(ts, p0, f) == Some(
                                    Ok::<(SpecExpr, int), SpecParseError>(
                                        (e@, self.pos as int),
                                    ),
                                ) by {
                                    let f1 = (f - 1) as nat;
                                    assert(f1 >= pfuel(n, p0, 2));
                                    assert(sp_primary(ts, p0, f1) == Some(
                                        Ok::<(SpecExpr, int), SpecParseError>((leftv, p1)),
                                    ));
                                    assert(f1 >= pfuel(n, p2, 2));
                                    assert(sp_primary(ts, p2, f1) == Some(
                                        Ok::<(SpecExpr, int), SpecParseError>(
                                            (rightv, self.pos as int),
                                        ),
                                    ));
                                }
                            }
                            Ok(e)
                        },
                    }
                } else {
                    proof {
                        assert forall|f: nat| f >= pfuel(n, p0, 3) implies
                            #[trigger] sp_comparison(ts, p0, f) == Some(
                            Ok::<(SpecExpr, int), SpecParseError>((leftv, p1)),
                        ) by {
                            let f1 = (f - 1) as nat;
                            assert(f1 >= pfuel(n, p0, 2));
                            assert(sp_primary(ts, p0, f1) == Some(
                                Ok::<(SpecExpr, int), SpecParseError>((leftv, p1)),
                            ));
                        }
                    }
                    Ok(left)
                }
            },
        }
    }

    /// Parse a filter expression: a comparison, then optionally `&&` or
    /// `||` and another full filter expression (right-recursive; the two
    /// operators share one precedence tier).
    #[verifier::rlimit(100)]
    #[verifier::spinoff_prover]
    fn parse_filter_expr(&mut self) -> (r: Result<Expr, ParseError>)
        requires
            old(self).wf(),
        ensures
            final(self).wf(),
            final(self).tokens == old(self).tokens,
            old(self).pos <= final(self).pos,
            match r {
                Ok(e) => forall|f: nat|
                    f >= pfuel(old(self).toks().len() as int, old(self).pos as int, 4)
                        ==> #[trigger] sp_filter(old(self).toks(), old(self).pos as int, f)
                        == Some(
                        Ok::<(SpecExpr, int), SpecParseError>((e@, final(self).pos as int)),
                    ),
                Err(pe) => forall|f: nat|
                    f >= pfuel(old(self).toks().len() as int, old(self).pos as int, 4)
                        ==> #[trigger] sp_filter(old(self).toks(), old(self).pos as int, f)
                        == Some(Err::<(SpecExpr, int), SpecParseError>(pe@)),
            },
        decreases old(self).tokens@.len() - old(self).pos, 3int,
    {
        let ghost ts = self.toks();
        let ghost n = ts.len() as int;
        let ghost p0 = self.pos as int;
        match self.parse_comparison() {
            Err(pe) => {
                proof {
                    assert forall|f: nat| f >= pfuel(n, p0, 4) implies #[trigger] sp_filter(
                        ts,
                        p0,
                        f,
                    ) == Some(Err::<(SpecExpr, int), SpecParseError>(pe@)) by {
                        let f1 = (f - 1) as nat;
                        assert(f1 >= pfuel(n, p0, 3));
                        assert(sp_comparison(ts, p0, f1) == Some(
                            Err::<(SpecExpr, int), SpecParseError>(pe@),
                        ));
                    }
                }
                Err(pe)
            },
            Ok(left) => {
                let ghost leftv = left@;
                let ghost p1 = self.pos as int;
                let is_and = matches!(self.peek(), Token::And);
                let is_or = matches!(self.peek(), Token::Or);
                if is_and || is_or {
                    self.advance();
                    let ghost p2 = self.pos as int;
                    match self.parse_filter_expr() {
                        Err(pe) => {
                            proof {
                                assert forall|f: nat| f >= pfuel(n, p0, 4) implies
                                    #[trigger] sp_filter(ts, p0, f) == Some(
                                    Err::<(SpecExpr, int), SpecParseError>(pe@),
                                ) by {
                                    let f1 = (f - 1) as nat;
                                    assert(f1 >= pfuel(n, p0, 3));
                                    assert(sp_comparison(ts, p0, f1) == Some(
                                        Ok::<(SpecExpr, int), SpecParseError>((leftv, p1)),
                                    ));
                                    assert(f1 >= pfuel(n, p2, 4));
                                    assert(sp_filter(ts, p2, f1) == Some(
                                        Err::<(SpecExpr, int), SpecParseError>(pe@),
                                    ));
                                }
                            }
                            Err(pe)
                        },
                        Ok(right) => {
                            let ghost rightv = right@;
                            let e = if is_and {
                                Expr::And(Box::new(left), Box::new(right))
                            } else {
                                Expr::Or(Box::new(left), Box::new(right))
                            };
                            proof {
                                assert forall|f: nat| f >= pfuel(n, p0, 4) implies
                                    #[trigger] sp_filter(ts, p0, f) == Some(
                                    Ok::<(SpecExpr, int), SpecParseError>(
                                        (e@, self.pos as int),
                                    ),
                                ) by {
                                    let f1 = (f - 1) as nat;
                                    assert(f1 >= pfuel(n, p0, 3));
                                    assert(sp_comparison(ts, p0, f1) == Some(
                                        Ok::<(SpecExpr, int), SpecParseError>((leftv, p1)),
                                    ));
                                    assert(f1 >= pfuel(n, p2, 4));
                                    assert(sp_filter(ts, p2, f1) == Some(
                                        Ok::<(SpecExpr, int), SpecParseError>(
                                            (rightv, self.pos as int),
                                        ),
                                    ));
                                }
                            }
                            Ok(e)
                        },
                    }
                } else {
                    proof {
                        assert forall|f: nat| f >= pfuel(n, p0, 4) implies #[trigger] sp_filter(
                            ts,
                            p0,
                            f,
                        ) == Some(Ok::<(SpecExpr, int), SpecParseError>((leftv, p1))) by {
                            let f1 = (f - 1) as nat;
                            assert(f1 >= pfuel(n, p0, 3));
                            assert(sp_comparison(ts, p0, f1) == Some(
                                Ok::<(SpecExpr, int), SpecParseError>((leftv, p1)),
                            ));
                        }
                    }
                    Ok(left)
                }
            },
        }
    }

    /// Parse the fields of a `{...}` projection.
    #[verifier::rlimit(100)]
    #[verifier::spinoff_prover]
    fn parse_projection(&mut self) -> (r: Result<Vec<(String, Expr)>, ParseError>)
        requires
            old(self).wf(),
        ensures
            final(self).wf(),
            final(self).tokens == old(self).tokens,
            old(self).pos <= final(self).pos,
            match r {
                Ok(fields) => forall|f: nat|
                    f >= pfuel(old(self).toks().len() as int, old(self).pos as int, 1)
                        ==> #[trigger] sp_proj_fields(old(self).toks(), old(self).pos as int, f)
                        == Some(
                        Ok::<(Seq<(Seq<char>, SpecExpr)>, int), SpecParseError>(
                            (crate::ast::proj_view(fields@), final(self).pos as int),
                        ),
                    ),
                Err(pe) => forall|f: nat|
                    f >= pfuel(old(self).toks().len() as int, old(self).pos as int, 1)
                        ==> #[trigger] sp_proj_fields(old(self).toks(), old(self).pos as int, f)
                        == Some(Err::<(Seq<(Seq<char>, SpecExpr)>, int), SpecParseError>(pe@)),
            },
        decreases old(self).tokens@.len() - old(self).pos, 0int,
    {
        let ghost ts = self.toks();
        let ghost n = ts.len() as int;
        let ghost p0 = self.pos as int;
        if matches!(self.peek(), Token::RBrace) || matches!(self.peek(), Token::Eof) {
            let fields: Vec<(String, Expr)> = Vec::new();
            proof {
                assert(crate::ast::proj_view(fields@) =~= Seq::<(Seq<char>, SpecExpr)>::empty());
            }
            return Ok(fields);
        }
        if matches!(self.peek(), Token::Ellipsis) {
            self.advance();
            if matches!(self.peek(), Token::Comma) {
                self.advance();
            }
            let ghost p1 = self.pos as int;
            match self.parse_projection() {
                Err(pe) => {
                    proof {
                        assert forall|f: nat| f >= pfuel(n, p0, 1) implies
                            #[trigger] sp_proj_fields(ts, p0, f) == Some(
                            Err::<(Seq<(Seq<char>, SpecExpr)>, int), SpecParseError>(pe@),
                        ) by {
                            let f1 = (f - 1) as nat;
                            assert(f1 >= pfuel(n, p1, 1));
                            assert(sp_proj_fields(ts, p1, f1) == Some(
                                Err::<(Seq<(Seq<char>, SpecExpr)>, int), SpecParseError>(pe@),
                            ));
                        }
                    }
                    return Err(pe);
                },
                Ok(rest) => {
                    let ghost restv = crate::ast::proj_view(rest@);
                    let ghost p2 = self.pos as int;
                    let mut fields = rest;
                    fields.insert(0, (String::from_str("..."), Expr::Everything));
                    proof {
                        assert(crate::ast::proj_view(fields@) =~= seq![
                            ("..."@, SpecExpr::Everything),
                        ] + restv);
                        assert forall|f: nat| f >= pfuel(n, p0, 1) implies
                            #[trigger] sp_proj_fields(ts, p0, f) == Some(
                            Ok::<(Seq<(Seq<char>, SpecExpr)>, int), SpecParseError>(
                                (crate::ast::proj_view(fields@), p2),
                            ),
                        ) by {
                            let f1 = (f - 1) as nat;
                            assert(f1 >= pfuel(n, p1, 1));
                            assert(sp_proj_fields(ts, p1, f1) == Some(
                                Ok::<(Seq<(Seq<char>, SpecExpr)>, int), SpecParseError>(
                                    (restv, p2),
                                ),
                            ));
                        }
                    }
                    return Ok(fields);
                },
            }
        }
        let alias_opt: Option<String> = match self.peek() {
            Token::String(sv) => Some(sv.clone()),
            _ => None,
        };
        if let Some(alias) = alias_opt {
            let ghost aliasv = alias@;
            self.advance();
            let ghost p1 = self.pos as int;
            match self.expect(Token::Colon) {
                Err(pe) => {
                    return Err(pe);
                },
                Ok(_) => {
                    let ghost p2 = self.pos as int;
                    match self.parse_filter_expr() {
                        Err(pe) => {
                            proof {
                                assert forall|f: nat| f >= pfuel(n, p0, 1) implies
                                    #[trigger] sp_proj_fields(ts, p0, f) == Some(
                                    Err::<(Seq<(Seq<char>, SpecExpr)>, int), SpecParseError>(
                                        pe@,
                                    ),
                                ) by {
                                    let f1 = (f - 1) as nat;
                                    assert(f1 >= pfuel(n, p2, 4));
                                    assert(sp_filter(ts, p2, f1) == Some(
                                        Err::<(SpecExpr, int), SpecParseError>(pe@),
                                    ));
                                }
                            }
                            return Err(pe);
                        },
                        Ok(e) => {
                            let ghost ev = e@;
                            let ghost p3 = self.pos as int;
                            if matches!(self.peek(), Token::Comma) {
                                self.advance();
                            }
                            let ghost p4 = self.pos as int;
                            match self.parse_projection() {
                                Err(pe) => {
                                    proof {
                                        assert forall|f: nat| f >= pfuel(n, p0, 1) implies
                                            #[trigger] sp_proj_fields(ts, p0, f) == Some(
                                            Err::<
                                                (Seq<(Seq<char>, SpecExpr)>, int),
                                                SpecParseError,
                                            >(pe@),
                                        ) by {
                                            let f1 = (f - 1) as nat;
                                            assert(f1 >= pfuel(n, p2, 4));
                                            assert(sp_filter(ts, p2, f1) == Some(
                                                Ok::<(SpecExpr, int), SpecParseError>(
                                                    (ev, p3),
                                                ),
                                            ));
                                            assert(p4 == skip_comma(ts, p3));
                                            assert(f1 >= pfuel(n, p4, 1));
                                            assert(sp_proj_fields(ts, p4, f1) == Some(
                                                Err::<
                                                    (Seq<(Seq<char>, SpecExpr)>, int),
                                                    SpecParseError,
                                                >(pe@),
                                            ));
                                        }
                                    }
                                    return Err(pe);
                                },
                                Ok(rest) => {
                                    let ghost restv = crate::ast::proj_view(rest@);
                                    let ghost p5 = self.pos as int;
                                    let mut fields = rest;
                                    fields.insert(0, (alias, e));
                                    proof {
                                        assert(crate::ast::proj_view(fields@) =~= seq![
                                            (aliasv, ev),
                                        ] + restv);
                                        assert forall|f: nat| f >= pfuel(n, p0, 1) implies
                                            #[trigger] sp_proj_fields(ts, p0, f) == Some(
                                            Ok::<
                                                (Seq<(Seq<char>, SpecExpr)>, int),
                                                SpecParseError,
                                            >((crate::ast::proj_view(fields@), p5)),
                                        ) by {
                                            let f1 = (f - 1) as nat;
                                            assert(f1 >= pfuel(n, p2, 4));
                                            assert(sp_filter(ts, p2, f1) == Some(
                                                Ok::<(SpecExpr, int), SpecParseError>(
                                                    (ev, p3),
                                                ),
                                            ));
                                            assert(p4 == skip_comma(ts, p3));
                                            assert(f1 >= pfuel(n, p4, 1));
                                            assert(sp_proj_fields(ts, p4, f1) == Some(
                                                Ok::<
                                                    (Seq<(Seq<char>, SpecExpr)>, int),
                                                    SpecParseError,
                                                >((restv, p5)),
                                            ));
                                        }
                                    }
                                    return Ok(fields);
                                },
                            }
                        },
                    }
                },
            }
        }
        let name_opt: Option<String> = match self.peek() {
            Token::Ident(nm) => Some(nm.clone()),
            _ => None,
        };
        if let Some(name) = name_opt {
            let ghost namev = name@;
            self.advance();
            let ghost p1 = self.pos as int;
            if matches!(self.peek(), Token::Colon) {
                self.advance();
                let ghost p2 = self.pos as int;
                match self.parse_filter_expr() {
                    Err(pe) => {
                        proof {
                            assert forall|f: nat| f >= pfuel(n, p0, 1) implies
                                #[trigger] sp_proj_fields(ts, p0, f) == Some(
                                Err::<(Seq<(Seq<char>, SpecExpr)>, int), SpecParseError>(pe@),
                            ) by {
                                let f1 = (f - 1) as nat;
                                assert(f1 >= pfuel(n, p2, 4));
                                assert(sp_filter(ts, p2, f1) == Some(
                                    Err::<(SpecExpr, int), SpecParseError>(pe@),
                                ));
                            }
                        }
                        return Err(pe);
                    },
                    Ok(e) => {
                        let ghost ev = e@;
                        let ghost p3 = self.pos as int;
                        if matches!(self.peek(), Token::Comma) {
                            self.advance();
                        }
                        let ghost p4 = self.pos as int;
                        match self.parse_projection() {
                            Err(pe) => {
                                proof {
                                    assert forall|f: nat| f >= pfuel(n, p0, 1) implies
                                        #[trigger] sp_proj_fields(ts, p0, f) == Some(
                                        Err::<(Seq<(Seq<char>, SpecExpr)>, int), SpecParseError>(
                                            pe@,
                                        ),
                                    ) by {
                                        let f1 = (f - 1) as nat;
                                        assert(f1 >= pfuel(n, p2, 4));
                                        assert(sp_filter(ts, p2, f1) == Some(
                                            Ok::<(SpecExpr, int), SpecParseError>((ev, p3)),
                                        ));
                                        assert(p4 == skip_comma(ts, p3));
                                        assert(f1 >= pfuel(n, p4, 1));
                                        assert(sp_proj_fields(ts, p4, f1) == Some(
                                            Err::<
                                                (Seq<(Seq<char>, SpecExpr)>, int),
                                                SpecParseError,
                                            >(pe@),
                                        ));
                                    }
                                }
                                return Err(pe);
                            },
                            Ok(rest) => {
                                let ghost restv = crate::ast::proj_view(rest@);
                                let ghost p5 = self.pos as int;
                                let mut fields = rest;
                                fields.insert(0, (name, e));
                                proof {
                                    assert(crate::ast::proj_view(fields@) =~= seq![
                                        (namev, ev),
                                    ] + restv);
                                    assert forall|f: nat| f >= pfuel(n, p0, 1) implies
                                        #[trigger] sp_proj_fields(ts, p0, f) == Some(
                                        Ok::<(Seq<(Seq<char>, SpecExpr)>, int), SpecParseError>(
                                            (crate::ast::proj_view(fields@), p5),
                                        ),
                                    ) by {
                                        let f1 = (f - 1) as nat;
                                        assert(f1 >= pfuel(n, p2, 4));
                                        assert(sp_filter(ts, p2, f1) == Some(
                                            Ok::<(SpecExpr, int), SpecParseError>((ev, p3)),
                                        ));
                                        assert(p4 == skip_comma(ts, p3));
                                        assert(f1 >= pfuel(n, p4, 1));
                                        assert(sp_proj_fields(ts, p4, f1) == Some(
                                            Ok::<
                                                (Seq<(Seq<char>, SpecExpr)>, int),
                                                SpecParseError,
                                            >((restv, p5)),
                                        ));
                                    }
                                }
                                return Ok(fields);
                            },
                        }
                    },
                }
            } else {
                if matches!(self.peek(), Token::Comma) {
                    self.advance();
                }
                let ghost p4 = self.pos as int;
                match self.parse_projection() {
                    Err(pe) => {
                        proof {
                            assert forall|f: nat| f >= pfuel(n, p0, 1) implies
                                #[trigger] sp_proj_fields(ts, p0, f) == Some(
                                Err::<(Seq<(Seq<char>, SpecExpr)>, int), SpecParseError>(pe@),
                            ) by {
                                let f1 = (f - 1) as nat;
                                assert(p4 == skip_comma(ts, p1));
                                assert(f1 >= pfuel(n, p4, 1));
                                assert(sp_proj_fields(ts, p4, f1) == Some(
                                    Err::<(Seq<(Seq<char>, SpecExpr)>, int), SpecParseError>(
                                        pe@,
                                    ),
                                ));
                            }
                        }
                        return Err(pe);
                    },
                    Ok(rest) => {
                        let ghost restv = crate::ast::proj_view(rest@);
                        let ghost p5 = self.pos as int;
                        let default_expr = Expr::Ident(name.clone());
                        let mut fields = rest;
                        fields.insert(0, (name, default_expr));
                        proof {
                            assert(crate::ast::proj_view(fields@) =~= seq![
                                (namev, SpecExpr::Ident(namev)),
                            ] + restv);
                            assert forall|f: nat| f >= pfuel(n, p0, 1) implies
                                #[trigger] sp_proj_fields(ts, p0, f) == Some(
                                Ok::<(Seq<(Seq<char>, SpecExpr)>, int), SpecParseError>(
                                    (crate::ast::proj_view(fields@), p5),
                                ),
                            ) by {
                                let f1 = (f - 1) as nat;
                                assert(p4 == skip_comma(ts, p1));
                                assert(f1 >= pfuel(n, p4, 1));
                                assert(sp_proj_fields(ts, p4, f1) == Some(
                                    Ok::<(Seq<(Seq<char>, SpecExpr)>, int), SpecParseError>(
                                        (restv, p5),
                                    ),
                                ));
                            }
                        }
                        return Ok(fields);
                    },
                }
            }
        }
        let fields: Vec<(String, Expr)> = Vec::new();
        proof {
            assert(crate::ast::proj_view(fields@) =~= Seq::<(Seq<char>, SpecExpr)>::empty());
        }
        Ok(fields)
    }

    /// Parse a pipe stage after `|`: `order(expr [asc|desc])`, or fall
    /// back to a plain filter expression.
    #[verifier::rlimit(100)]
    #[verifier::spinoff_prover]
    fn parse_pipe_expr(&mut self) -> (r: Result<Expr, ParseError>)
        requires
            old(self).wf(),
        ensures
            final(self).wf(),
            final(self).tokens == old(self).tokens,
            old(self).pos <= final(self).pos,
            match r {
                Ok(e) => forall|f: nat|
                    f >= pfuel(old(self).toks().len() as int, old(self).pos as int, 5)
                        ==> #[trigger] sp_pipe(old(self).toks(), old(self).pos as int, f)
                        == Some(
                        Ok::<(SpecExpr, int), SpecParseError>((e@, final(self).pos as int)),
                    ),
                Err(pe) => forall|f: nat|
                    f >= pfuel(old(self).toks().len() as int, old(self).pos as int, 5)
                        ==> #[trigger] sp_pipe(old(self).toks(), old(self).pos as int, f)
                        == Some(Err::<(SpecExpr, int), SpecParseError>(pe@)),
            },
        decreases old(self).tokens@.len() - old(self).pos, 4int,
    {
        let ghost ts = self.toks();
        let ghost n = ts.len() as int;
        let ghost p0 = self.pos as int;
        let name_opt: Option<String> = match self.peek() {
            Token::Ident(nm) => Some(nm.clone()),
            _ => None,
        };
        let is_order = match &name_opt {
            Some(nm) => crate::text::str_eq(nm.as_str(), "order"),
            None => false,
        };
        if is_order {
            self.advance();
            let ghost p1 = self.pos as int;
            match self.expect(Token::LParen) {
                Err(pe) => {
                    return Err(pe);
                },
                Ok(_) => {
                    let ghost p2 = self.pos as int;
                    match self.parse_primary() {
                        Err(pe) => {
                            proof {
                                assert forall|f: nat| f >= pfuel(n, p0, 5) implies
                                    #[trigger] sp_pipe(ts, p0, f) == Some(
                                    Err::<(SpecExpr, int), SpecParseError>(pe@),
                                ) by {
                                    let f1 = (f - 1) as nat;
                                    assert(f1 >= pfuel(n, p2, 2));
                                    assert(sp_primary(ts, p2, f1) == Some(
                                        Err::<(SpecExpr, int), SpecParseError>(pe@),
                                    ));
                                }
                            }
                            return Err(pe);
                        },
                        Ok(field) => {
                            let ghost fieldv = field@;
                            let ghost p3 = self.pos as int;
                            let ascending: bool;
                            if matches!(self.peek(), Token::Desc) {
                                self.advance();
                                ascending = false;
                            } else {
                                if matches!(self.peek(), Token::Asc) {
                                    self.advance();
                                }
                                ascending = true;
                            }
                            let ghost p4 = self.pos as int;
                            match self.expect(Token::RParen) {
                                Err(pe) => {
                                    proof {
                                        assert forall|f: nat| f >= pfuel(n, p0, 5) implies
                                            #[trigger] sp_pipe(ts, p0, f) == Some(
                                            Err::<(SpecExpr, int), SpecParseError>(pe@),
                                        ) by {
                                            let f1 = (f - 1) as nat;
                                            assert(f1 >= pfuel(n, p2, 2));
                                            assert(sp_primary(ts, p2, f1) == Some(
                                                Ok::<(SpecExpr, int), SpecParseError>(
                                                    (fieldv, p3),
                                                ),
                                            ));
                                        }
                                    }
                                    return Err(pe);
                                },
                                Ok(_) => {
                                    let res = Expr::Order(Box::new(field), ascending);
                                    proof {
                                        assert forall|f: nat| f >= pfuel(n, p0, 5) implies
                                            #[trigger] sp_pipe(ts, p0, f) == Some(
                                            Ok::<(SpecExpr, int), SpecParseError>(
                                                (res@, self.pos as int),
                                            ),
                                        ) by {
                                            let f1 = (f - 1) as nat;
                                            assert(f1 >= pfuel(n, p2, 2));
                                            assert(sp_primary(ts, p2, f1) == Some(
                                                Ok::<(SpecExpr, int), SpecParseError>(
                                                    (fieldv, p3),
                                                ),
                                            ));
                                        }
                                    }
                                    return Ok(res);
                                },
                            }
                        },
                    }
                },
            }
        }
        match self.parse_filter_expr() {
            Err(pe) => {
                proof {
                    assert forall|f: nat| f >= pfuel(n, p0, 5) implies #[trigger] sp_pipe(
                        ts,
                        p0,
                        f,
                    ) == Some(Err::<(SpecExpr, int), SpecParseError>(pe@)) by {
                        let f1 = (f - 1) as nat;
                        assert(f1 >= pfuel(n, p0, 4));
                        assert(sp_filter(ts, p0, f1) == Some(
                            Err::<(SpecExpr, int), SpecParseError>(pe@),
                        ));
                    }
                }
                Err(pe)
            },
            Ok(e) => {
                proof {
                    assert forall|f: nat| f >= pfuel(n, p0, 5) implies #[trigger] sp_pipe(
                        ts,
                        p0,
                        f,
                    ) == Some(
                        Ok::<(SpecExpr, int), SpecParseError>((e@, self.pos as int)),
                    ) by {
                        let f1 = (f - 1) as nat;
                        assert(f1 >= pfuel(n, p0, 4));
                        assert(sp_filter(ts, p0, f1) == Some(
                            Ok::<(SpecExpr, int), SpecParseError>((e@, self.pos as int)),
                        ));
                    }
                }
                Ok(e)
            },
        }
    }

    /// Parse what follows the filter of a `*[filter]` pipeline: the
    /// closing bracket, then an optional projection or pipe stage.
    #[verifier::rlimit(100)]
    #[verifier::spinoff_prover]
    fn parse_expr_tail(&mut self, fexpr: Expr) -> (r: Result<Expr, ParseError>)
        requires
            old(self).wf(),
        ensures
            final(self).wf(),
            final(self).tokens == old(self).tokens,
            old(self).pos <= final(self).pos,
            match r {
                Ok(e) => forall|f: nat|
                    f >= pfuel(old(self).toks().len() as int, old(self).pos as int, 5)
                        ==> #[trigger] sp_expr_tail(
                        old(self).toks(),
                        old(self).pos as int,
                        fexpr@,
                        f,
                    ) == Some(
                        Ok::<(SpecExpr, int), SpecParseError>((e@, final(self).pos as int)),
                    ),
                Err(pe) => forall|f: nat|
                    f >= pfuel(old(self).toks().len() as int, old(self).pos as int, 5)
                        ==> #[trigger] sp_expr_tail(
                        old(self).toks(),
                        old(self).pos as int,
                        fexpr@,
                        f,
                    ) == Some(Err::<(SpecExpr, int), SpecParseError>(pe@)),
            },
        decreases old(self).tokens@.len() - old(self).pos, 4int,
    {
        let ghost ts = self.toks();
        let ghost n = ts.len() as int;
        let ghost p3 = self.pos as int;
        let ghost fv = fexpr@;
        match self.expect(Token::RBracket) {
            Err(pe) => {
                return Err(pe);
            },
            Ok(_) => {
                let ghost p4 = self.pos as int;
                if matches!(self.peek(), Token::LBrace) {
                    self.advance();
                    let ghost p5 = self.pos as int;
                    match self.parse_projection() {
                        Err(pe) => {
                            proof {
                                assert forall|f: nat| f >= pfuel(n, p3, 5) implies
                                    #[trigger] sp_expr_tail(ts, p3, fv, f) == Some(
                                    Err::<(SpecExpr, int), SpecParseError>(pe@),
                                ) by {
                                    let f1 = (f - 1) as nat;
                                    assert(f1 >= pfuel(n, p5, 1));
                                    assert(sp_proj_fields(ts, p5, f1) == Some(
                                        Err::<(Seq<(Seq<char>, SpecExpr)>, int), SpecParseError>(
                                            pe@,
                                        ),
                                    ));
                                }
                            }
                            return Err(pe);
                        },
                        Ok(fields) => {
                            let ghost fieldsv = crate::ast::proj_view(fields@);
                            let ghost p6 = self.pos as int;
                            match self.expect(Token::RBrace) {
                                Err(pe) => {
                                    proof {
                                        assert forall|f: nat| f >= pfuel(n, p3, 5) implies
                                            #[trigger] sp_expr_tail(ts, p3, fv, f) == Some(
                                            Err::<(SpecExpr, int), SpecParseError>(pe@),
                                        ) by {
                                            let f1 = (f - 1) as nat;
                                            assert(f1 >= pfuel(n, p5, 1));
                                            assert(sp_proj_fields(ts, p5, f1) == Some(
                                                Ok::<
                                                    (Seq<(Seq<char>, SpecExpr)>, int),
                                                    SpecParseError,
                                                >((fieldsv, p6)),
                                            ));
                                        }
                                    }
                                    return Err(pe);
                                },
                                Ok(_) => {
                                    let mut stages: Vec<Expr> = Vec::new();
                                    stages.push(Expr::Everything);
                                    stages.push(Expr::Filter(Box::new(fexpr)));
                                    stages.push(Expr::Projection(fields));
                                    let res = Expr::Pipeline(stages);
                                    proof {
                                        assert(crate::ast::exprs_view(res->Pipeline_0@) =~= seq![
                                            SpecExpr::Everything,
                                            SpecExpr::Filter(Box::new(fv)),
                                            SpecExpr::Projection(fieldsv),
                                        ]);
                                        assert forall|f: nat| f >= pfuel(n, p3, 5) implies
                                            #[trigger] sp_expr_tail(ts, p3, fv, f) == Some(
                                            Ok::<(SpecExpr, int), SpecParseError>(
                                                (res@, self.pos as int),
                                            ),
                                        ) by {
                                            let f1 = (f - 1) as nat;
                                            assert(f1 >= pfuel(n, p5, 1));
                                            assert(sp_proj_fields(ts, p5, f1) == Some(
                                                Ok::<
                                                    (Seq<(Seq<char>, SpecExpr)>, int),
                                                    SpecParseError,
                                                >((fieldsv, p6)),
                                            ));
                                        }
                                    }
                                    return Ok(res);
                                },
                            }
                        },
                    }
                } else if matches!(self.peek(), Token::Pipe) {
                    self.advance();
                    let ghost p5 = self.pos as int;
                    match self.parse_pipe_expr() {
                        Err(pe) => {
                            proof {
                                assert forall|f: nat| f >= pfuel(n, p3, 5) implies
                                    #[trigger] sp_expr_tail(ts, p3, fv, f) == Some(
                                    Err::<(SpecExpr, int), SpecParseError>(pe@),
                                ) by {
                                    let f1 = (f - 1) as nat;
                                    assert(f1 >= pfuel(n, p5, 5));
                                    assert(sp_pipe(ts, p5, f1) == Some(
                                        Err::<(SpecExpr, int), SpecParseError>(pe@),
                                    ));
                                }
                            }
                            return Err(pe);
                        },
                        Ok(pe_expr) => {
                            let ghost pev = pe_expr@;
                            let ghost p6 = self.pos as int;
                            let mut stages: Vec<Expr> = Vec::new();
                            stages.push(Expr::Everything);
                            stages.push(Expr::Filter(Box::new(fexpr)));
                            stages.push(pe_expr);
                            let res = Expr::Pipeline(stages);
                            proof {
                                assert(crate::ast::exprs_view(res->Pipeline_0@) =~= seq![
                                    SpecExpr::Everything,
                                    SpecExpr::Filter(Box::new(fv)),
                                    pev,
                                ]);
                                assert forall|f: nat| f >= pfuel(n, p3, 5) implies
                                    #[trigger] sp_expr_tail(ts, p3, fv, f) == Some(
                                    Ok::<(SpecExpr, int), SpecParseError>((res@, p6)),
                                ) by {
                                    let f1 = (f - 1) as nat;
                                    assert(f1 >= pfuel(n, p5, 5));
                                    assert(sp_pipe(ts, p5, f1) == Some(
                                        Ok::<(SpecExpr, int), SpecParseError>((pev, p6)),
                                    ));
                                }
                            }
                            return Ok(res);
                        },
                    }
                } else {
                    let mut stages: Vec<Expr> = Vec::new();
                    stages.push(Expr::Everything);
                    stages.push(Expr::Filter(Box::new(fexpr)));
                    let res = Expr::Pipeline(stages);
                    proof {
                        assert(crate::ast::exprs_view(res->Pipeline_0@) =~= seq![
                            SpecExpr::Everything,
                            SpecExpr::Filter(Box::new(fv)),
                        ]);
                    }
                    return Ok(res);
                }
            },
        }
    }

    /// Parse a top-level expression: a bare `*`, a `*[filter]` pipeline
    /// with optional projection or pipe stage, or a plain filter
    /// expression.
    fn parse_expr(&mut self) -> (r: Result<Expr, ParseError>)
        requires
            old(self).wf(),
        ensures
            final(self).wf(),
            final(self).tokens == old(self).tokens,
            old(self).pos <= final(self).pos,
            match r {
                Ok(e) => forall|f: nat|
                    f >= pfuel(old(self).toks().len() as int, old(self).pos as int, 6)
                        ==> #[trigger] sp_expr(old(self).toks(), old(self).pos as int, f)
                        == Some(
                        Ok::<(SpecExpr, int), SpecParseError>((e@, final(self).pos as int)),
                    ),
                Err(pe) => forall|f: nat|
                    f >= pfuel(old(self).toks().len() as int, old(self).pos as int, 6)
                        ==> #[trigger] sp_expr(old(self).toks(), old(self).pos as int, f)
                        == Some(Err::<(SpecExpr, int), SpecParseError>(pe@)),
            },
        decreases old(self).tokens@.len() - old(self).pos, 5int,
    {
        let ghost ts = self.toks();
        let ghost n = ts.len() as int;
        let ghost p0 = self.pos as int;
        if !matches!(self.peek(), Token::Star) {
            match self.parse_filter_expr() {
                Err(pe) => {
                    proof {
                        assert forall|f: nat| f >= pfuel(n, p0, 6) implies #[trigger] sp_expr(
                            ts,
                            p0,
                            f,
                        ) == Some(Err::<(SpecExpr, int), SpecParseError>(pe@)) by {
                            let f1 = (f - 1) as nat;
                            assert(f1 >= pfuel(n, p0, 4));
                            assert(sp_filter(ts, p0, f1) == Some(
                                Err::<(SpecExpr, int), SpecParseError>(pe@),
                            ));
                        }
                    }
                    return Err(pe);
                },
                Ok(e) => {
                    proof {
                        assert forall|f: nat| f >= pfuel(n, p0, 6) implies #[trigger] sp_expr(
                            ts,
                            p0,
                            f,
                        ) == Some(
                            Ok::<(SpecExpr, int), SpecParseError>((e@, self.pos as int)),
                        ) by {
                            let f1 = (f - 1) as nat;
                            assert(f1 >= pfuel(n, p0, 4));
                            assert(sp_filter(ts, p0, f1) == Some(
                                Ok::<(SpecExpr, int), SpecParseError>((e@, self.pos as int)),
                            ));
                        }
                    }
                    return Ok(e);
                },
            }
        }
        self.advance();
        let ghost p1 = self.pos as int;
        if !matches!(self.peek(), Token::LBracket) {
            return Ok(Expr::Everything);
        }
        self.advance();
        let ghost p2 = self.pos as int;
        match self.parse_filter_expr() {
            Err(pe) => {
                proof {
                    assert forall|f: nat| f >= pfuel(n, p0, 6) implies #[trigger] sp_expr(
                        ts,
                        p0,
                        f,
                    ) == Some(Err::<(SpecExpr, int), SpecParseError>(pe@)) by {
                        let f1 = (f - 1) as nat;
                        assert(f1 >= pfuel(n, p2, 4));
                        assert(sp_filter(ts, p2, f1) == Some(
                            Err::<(SpecExpr, int), SpecParseError>(pe@),
                        ));
                    }
                }
                return Err(pe);
            },
            Ok(fexpr) => {
                let ghost fv = fexpr@;
                let ghost p3 = self.pos as int;
                match self.parse_expr_tail(fexpr) {
                    Err(pe) => {
                        proof {
                            assert forall|f: nat| f >= pfuel(n, p0, 6) implies
                                #[trigger] sp_expr(ts, p0, f) == Some(
                                Err::<(SpecExpr, int), SpecParseError>(pe@),
                            ) by {
                                let f1 = (f - 1) as nat;
                                assert(f1 >= pfuel(n, p2, 4));
                                assert(sp_filter(ts, p2, f1) == Some(
                                    Ok::<(SpecExpr, int), SpecParseError>((fv, p3)),
                                ));
                                assert(f1 >= pfuel(n, p3, 5));
                                assert(sp_expr_tail(ts, p3, fv, f1) == Some(
                                    Err::<(SpecExpr, int), SpecParseError>(pe@),
                                ));
                            }
                        }
                        Err(pe)
                    },
                    Ok(e) => {
                        proof {
                            assert forall|f: nat| f >= pfuel(n, p0, 6) implies
                                #[trigger] sp_expr(ts, p0, f) == Some(
                                Ok::<(SpecExpr, int), SpecParseError>((e@, self.pos as int)),
                            ) by {
                                let f1 = (f - 1) as nat;
                                assert(f1 >= pfuel(n, p2, 4));
                                assert(sp_filter(ts, p2, f1) == Some(
                                    Ok::<(SpecExpr, int), SpecParseError>((fv, p3)),
                                ));
                                assert(f1 >= pfuel(n, p3, 5));
                                assert(sp_expr_tail(ts, p3, fv, f1) == Some(
                                    Ok::<(SpecExpr, int), SpecParseError>(
                                        (e@, self.pos as int),
                                    ),
                                ));
                            }
                        }
                        Ok(e)
                    },
                }
            },
        }
    }
}

/// Parse a GROQ query string into an expression tree, or report the first
/// lexing or parsing failure. Tokens after a complete leading expression
/// are not rejected.
pub fn parse(input: &str) -> (r: Result<Expr, ParseError>)
    ensures
        match r {
            Ok(e) => spec_parse(input@) == Ok::<SpecExpr, SpecParseError>(e@),
            Err(pe) => spec_parse(input@) == Err::<SpecExpr, SpecParseError>(pe@),
        },
{
    match tokenize(input) {
        Err(le) => Err(ParseError::Lex(le)),
        Ok(toks) => {
            let ghost sts = tokens_view(toks@);
            let mut parser = Parser::new(toks);
            let ghost ts = parser.toks();
            proof {
                assert(ts =~= stream_of(sts));
            }
            let r = parser.parse_expr();
            proof {
                let fu = pfuel(ts.len() as int, 0, 6);
                match &r {
                    Ok(e) => {
                        assert(sp_expr(ts, 0, fu) == Some(
                            Ok::<(SpecExpr, int), SpecParseError>((e@, parser.pos as int)),
                        ));
                    },
                    Err(pe) => {
                        assert(sp_expr(ts, 0, fu) == Some(
                            Err::<(SpecExpr, int), SpecParseError>(pe@),
                        ));
                    },
                }
            }
            r
        },
    }
}

} // verus!
