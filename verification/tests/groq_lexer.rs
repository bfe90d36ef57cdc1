use content_lake::lexer::{tokenize, LexError, Token};

fn tok(input: &str) -> Vec<Token> {
    tokenize(input)
        .unwrap()
        .into_iter()
        .map(|t| t.token)
        .collect()
}

#[test]
fn tokenize_simple_filter() {
    let tokens = tok("*[_type == \"post\"]");
    assert_eq!(tokens[0], Token::Star);
    assert_eq!(tokens[1], Token::LBracket);
    assert_eq!(tokens[2], Token::Ident("_type".into()));
    assert_eq!(tokens[3], Token::Eq);
    assert_eq!(tokens[4], Token::String("post".into()));
    assert_eq!(tokens[5], Token::RBracket);
    assert_eq!(tokens[6], Token::Eof);
}

#[test]
fn tokenize_projection() {
    let tokens = tok("{title, \"slug\": slug.current}");
    assert_eq!(tokens[0], Token::LBrace);
    assert_eq!(tokens[1], Token::Ident("title".into()));
    assert_eq!(tokens[2], Token::Comma);
    assert_eq!(tokens[3], Token::String("slug".into()));
    assert_eq!(tokens[4], Token::Colon);
    assert_eq!(tokens[5], Token::Ident("slug".into()));
    assert_eq!(tokens[6], Token::Dot);
    assert_eq!(tokens[7], Token::Ident("current".into()));
    assert_eq!(tokens[8], Token::RBrace);
}

#[test]
fn tokenize_numbers() {
    let tokens = tok("42 3.125 -7");
    assert_eq!(tokens[0], Token::Integer(42));
    assert_eq!(tokens[1], Token::Float("3.125".into()));
    assert_eq!(tokens[2], Token::Integer(-7));
}

#[test]
fn tokenize_comparison_operators() {
    let tokens = tok("< > <= >= == != !");
    assert_eq!(tokens[0], Token::Lt);
    assert_eq!(tokens[1], Token::Gt);
    assert_eq!(tokens[2], Token::Lte);
    assert_eq!(tokens[3], Token::Gte);
    assert_eq!(tokens[4], Token::Eq);
    assert_eq!(tokens[5], Token::Neq);
    assert_eq!(tokens[6], Token::Not);
}

#[test]
fn tokenize_keywords() {
    let tokens = tok("true false null match in asc desc");
    assert_eq!(tokens[0], Token::Bool(true));
    assert_eq!(tokens[1], Token::Bool(false));
    assert_eq!(tokens[2], Token::Null);
    assert_eq!(tokens[3], Token::Match);
    assert_eq!(tokens[4], Token::In);
    assert_eq!(tokens[5], Token::Asc);
    assert_eq!(tokens[6], Token::Desc);
}

#[test]
fn tokenize_dereference() {
    let tokens = tok("author->name");
    assert_eq!(tokens[0], Token::Ident("author".into()));
    assert_eq!(tokens[1], Token::Arrow);
    assert_eq!(tokens[2], Token::Ident("name".into()));
}

#[test]
fn tokenize_ellipsis() {
    let tokens = tok("{...}");
    assert_eq!(tokens[0], Token::LBrace);
    assert_eq!(tokens[1], Token::Ellipsis);
    assert_eq!(tokens[2], Token::RBrace);
}

#[test]
fn unterminated_string_error() {
    let result = tokenize("\"hello");
    assert!(result.is_err());
}

#[test]
fn tokenize_each_punctuation() {
    // Every punctuation and operator of the grammar tokenizes, on its own,
    // to exactly that one token followed by end of input.
    let cases: Vec<(&str, Token)> = vec![
        ("==", Token::Eq),
        ("!=", Token::Neq),
        ("<", Token::Lt),
        (">", Token::Gt),
        ("<=", Token::Lte),
        (">=", Token::Gte),
        ("&&", Token::And),
        ("||", Token::Or),
        ("!", Token::Not),
        ("*", Token::Star),
        (".", Token::Dot),
        (",", Token::Comma),
        (":", Token::Colon),
        ("|", Token::Pipe),
        ("->", Token::Arrow),
        ("@", Token::At),
        ("^", Token::Caret),
        ("...", Token::Ellipsis),
        ("(", Token::LParen),
        (")", Token::RParen),
        ("[", Token::LBracket),
        ("]", Token::RBracket),
        ("{", Token::LBrace),
        ("}", Token::RBrace),
    ];
    for (text, expected) in cases {
        let tokens = tok(text);
        assert_eq!(tokens.len(), 2, "input {:?}", text);
        assert_eq!(tokens[0], expected, "input {:?}", text);
        assert_eq!(tokens[1], Token::Eof, "input {:?}", text);
    }
}

#[test]
fn tokenize_range_keeps_integer_prefix() {
    // "1..5" must not lex as a float: the numeral run stops before "..".
    let tokens = tok("1..5");
    assert_eq!(tokens[0], Token::Integer(1));
    assert_eq!(tokens[1], Token::Dot);
    assert_eq!(tokens[2], Token::Dot);
    assert_eq!(tokens[3], Token::Integer(5));
    assert_eq!(tokens[4], Token::Eof);
}

#[test]
fn tokenize_negative_integer_is_one_token() {
    let tokens = tok("-7");
    assert_eq!(tokens, vec![Token::Integer(-7), Token::Eof]);
}

#[test]
fn tokenize_negative_float_keeps_sign_in_text() {
    let tokens = tok("-2.5");
    assert_eq!(tokens, vec![Token::Float("-2.5".into()), Token::Eof]);
}

#[test]
fn tokenize_skips_comments_and_whitespace() {
    let tokens = tok("a // trailing words\n\tb");
    assert_eq!(
        tokens,
        vec![
            Token::Ident("a".into()),
            Token::Ident("b".into()),
            Token::Eof
        ]
    );
}

#[test]
fn tokenize_string_keeps_raw_escapes() {
    // A backslash skips the closing-quote check but stays in the text.
    let tokens = tok("\"a\\\"b\"");
    assert_eq!(tokens[0], Token::String("a\\\"b".into()));
    let single = tok("'it'");
    assert_eq!(single[0], Token::String("it".into()));
}

#[test]
fn tokenize_unexpected_char_errors() {
    assert_eq!(tokenize("="), Err(LexError::UnexpectedChar('=', 0)));
    assert_eq!(tokenize("&"), Err(LexError::UnexpectedChar('&', 0)));
    assert_eq!(tokenize("a - b"), Err(LexError::UnexpectedChar('-', 2)));
    assert_eq!(tokenize("~"), Err(LexError::UnexpectedChar('~', 0)));
}

#[test]
fn tokenize_unterminated_string_offset() {
    assert_eq!(tokenize("ab \"xy"), Err(LexError::UnterminatedString(3)));
    // A backslash before the end of input leaves the string open too.
    assert_eq!(tokenize("\"ab\\"), Err(LexError::UnterminatedString(0)));
}

#[test]
fn tokenize_malformed_number_errors() {
    // Two dots in one numeral run parse to no number.
    assert_eq!(tokenize("1.2.3"), Err(LexError::MalformedNumber(0)));
    // An integer beyond the 64-bit range parses to no number.
    assert_eq!(
        tokenize("99999999999999999999"),
        Err(LexError::MalformedNumber(0))
    );
    assert_eq!(tokenize("-99999999999999999999"), Err(LexError::MalformedNumber(0)));
}

#[test]
fn tokenize_spans_are_byte_offsets() {
    // Spans index the UTF-8 bytes of the input, so a two-byte character
    // widens every following span.
    let text = "\"h\u{e9}llo\" == x";
    let spanned = tokenize(text).unwrap();
    assert_eq!(spanned[0].token, Token::String("h\u{e9}llo".into()));
    assert_eq!((spanned[0].span.start, spanned[0].span.end), (0, 8));
    assert_eq!(spanned[1].token, Token::Eq);
    assert_eq!((spanned[1].span.start, spanned[1].span.end), (9, 11));
    assert_eq!(spanned[2].token, Token::Ident("x".into()));
    assert_eq!((spanned[2].span.start, spanned[2].span.end), (12, 13));
    assert_eq!((spanned[3].span.start, spanned[3].span.end), (13, 13));
    // The spans slice the raw bytes back to each token's text.
    assert_eq!(&text[spanned[0].span.start..spanned[0].span.end], "\"h\u{e9}llo\"");
    assert_eq!(&text[spanned[1].span.start..spanned[1].span.end], "==");
}

#[test]
fn tokenize_skips_unicode_whitespace() {
    let tokens = tok("a\u{00A0}\u{2003}b");
    assert_eq!(
        tokens,
        vec![
            Token::Ident("a".into()),
            Token::Ident("b".into()),
            Token::Eof
        ]
    );
    // An error offset after wide whitespace counts bytes too.
    assert_eq!(
        tokenize("\u{00A0}~"),
        Err(LexError::UnexpectedChar('~', 2))
    );
}

#[test]
fn tokenize_spans_cover_tokens() {
    let spanned = tokenize("ab == 1").unwrap();
    assert_eq!(spanned[0].span.start, 0);
    assert_eq!(spanned[0].span.end, 2);
    assert_eq!(spanned[1].span.start, 3);
    assert_eq!(spanned[1].span.end, 5);
    assert_eq!(spanned[2].span.start, 6);
    assert_eq!(spanned[2].span.end, 7);
    assert_eq!(spanned[3].span.start, 7);
    assert_eq!(spanned[3].span.end, 7);
}
