//! The GROQ lexer.
//!
//! [`tokenize`] scans query text left to right over its characters into a
//! sequence of spanned tokens, ending with one `Eof` token; every span and
//! error position is a byte offset into the UTF-8 encoding of the input. Multi-character
//! operators are recognized by one-character lookahead (two for `...`), `-`
//! binds to a following numeral, and a numeral run of digits and dots stops
//! early at `..` so that range-like text keeps its integer prefix. String
//! literals keep their raw text between the delimiters: a backslash skips
//! the next character without translating escape sequences.
//!
//! The whole scan is mirrored by the spec function [`spec_tokenize`], which
//! the contract of [`tokenize`] ties to its result exactly.

use vstd::prelude::*;

verus! {

/// One lexical token.
///
/// `Integer` carries the parsed 64-bit value; `Float` carries the numeral
/// text itself, sign included, so that no float value enters the crate.
#[derive(Debug, Clone, PartialEq)]
pub enum Token {
    /// A string literal.
    String(String),
    /// An integer literal.
    Integer(i64),
    /// A floating-point literal, as its numeral text.
    Float(String),
    /// A boolean literal.
    Bool(bool),
    /// The null literal.
    Null,
    /// An identifier.
    Ident(String),
    /// `==`
    Eq,
    /// `!=`
    Neq,
    /// `<`
    Lt,
    /// `>`
    Gt,
    /// `<=`
    Lte,
    /// `>=`
    Gte,
    /// `&&`
    And,
    /// `||`
    Or,
    /// `!`
    Not,
    /// The `match` keyword.
    Match,
    /// The `in` keyword.
    In,
    /// The `asc` keyword.
    Asc,
    /// The `desc` keyword.
    Desc,
    /// `*`
    Star,
    /// `.`
    Dot,
    /// `,`
    Comma,
    /// `:`
    Colon,
    /// `|`
    Pipe,
    /// `->`
    Arrow,
    /// `@`
    At,
    /// `^`
    Caret,
    /// `...`
    Ellipsis,
    /// `(`
    LParen,
    /// `)`
    RParen,
    /// `[`
    LBracket,
    /// `]`
    RBracket,
    /// `{`
    LBrace,
    /// `}`
    RBrace,
    /// The end of the input.
    Eof,
}

/// The view of a [`Token`]: string payloads become character sequences,
/// integers unbounded integers.
pub enum SpecToken {
    String(Seq<char>),
    Integer(int),
    Float(Seq<char>),
    Bool(bool),
    Null,
    Ident(Seq<char>),
    Eq,
    Neq,
    Lt,
    Gt,
    Lte,
    Gte,
    And,
    Or,
    Not,
    Match,
    In,
    Asc,
    Desc,
    Star,
    Dot,
    Comma,
    Colon,
    Pipe,
    Arrow,
    At,
    Caret,
    Ellipsis,
    LParen,
    RParen,
    LBracket,
    RBracket,
    LBrace,
    RBrace,
    Eof,
}

impl View for Token {
    type V = SpecToken;

    open spec fn view(&self) -> SpecToken {
        match self {
            Token::String(s) => SpecToken::String(s@),
            Token::Integer(n) => SpecToken::Integer(*n as int),
            Token::Float(t) => SpecToken::Float(t@),
            Token::Bool(b) => SpecToken::Bool(*b),
            Token::Null => SpecToken::Null,
            Token::Ident(s) => SpecToken::Ident(s@),
            Token::Eq => SpecToken::Eq,
            Token::Neq => SpecToken::Neq,
            Token::Lt => SpecToken::Lt,
            Token::Gt => SpecToken::Gt,
            Token::Lte => SpecToken::Lte,
            Token::Gte => SpecToken::Gte,
            Token::And => SpecToken::And,
            Token::Or => SpecToken::Or,
            Token::Not => SpecToken::Not,
            Token::Match => SpecToken::Match,
            Token::In => SpecToken::In,
            Token::Asc => SpecToken::Asc,
            Token::Desc => SpecToken::Desc,
            Token::Star => SpecToken::Star,
            Token::Dot => SpecToken::Dot,
            Token::Comma => SpecToken::Comma,
            Token::Colon => SpecToken::Colon,
            Token::Pipe => SpecToken::Pipe,
            Token::Arrow => SpecToken::Arrow,
            Token::At => SpecToken::At,
            Token::Caret => SpecToken::Caret,
            Token::Ellipsis => SpecToken::Ellipsis,
            Token::LParen => SpecToken::LParen,
            Token::RParen => SpecToken::RParen,
            Token::LBracket => SpecToken::LBracket,
            Token::RBracket => SpecToken::RBracket,
            Token::LBrace => SpecToken::LBrace,
            Token::RBrace => SpecToken::RBrace,
            Token::Eof => SpecToken::Eof,
        }
    }
}

/// Position of one token in the source text, as a half-open byte offset
/// range `[start, end)` into the UTF-8 encoding of the input.
#[derive(Debug, Clone, Copy, PartialEq, Eq, Structural)]
pub struct Span {
    pub start: usize,
    pub end: usize,
}

/// A token with its source position.
#[derive(Debug, Clone, PartialEq)]
pub struct SpannedToken {
    pub token: Token,
    pub span: Span,
}

/// The view of a [`SpannedToken`].
pub struct SpecSpannedToken {
    pub token: SpecToken,
    pub start: int,
    pub end: int,
}

impl View for SpannedToken {
    type V = SpecSpannedToken;

    open spec fn view(&self) -> SpecSpannedToken {
        SpecSpannedToken { token: self.token@, start: self.span.start as int, end: self.span.end as int }
    }
}

/// The views of a token sequence, element by element.
pub open spec fn tokens_view(s: Seq<SpannedToken>) -> Seq<SpecSpannedToken> {
    Seq::new(s.len(), |i: int| s[i]@)
}

/// A lexing failure. Each variant carries the byte offset it refers to.
#[derive(Debug, Clone, Copy, PartialEq, Eq, Structural)]
pub enum LexError {
    /// A character that starts no token.
    UnexpectedChar(char, usize),
    /// A string literal with no closing delimiter before the end of input.
    UnterminatedString(usize),
    /// A numeral whose text parses to no number: more than one dot, or an
    /// integer beyond the 64-bit range.
    MalformedNumber(usize),
}

/// Whitespace, skipped between tokens: the Unicode `White_Space`
/// characters.
pub open spec fn is_ws_char(c: char) -> bool {
    c == ' ' || c == '\t' || c == '\n' || c == '\u{000B}' || c == '\u{000C}' || c == '\r'
        || c == '\u{0085}' || c == '\u{00A0}' || c == '\u{1680}' || ('\u{2000}' <= c && c
        <= '\u{200A}') || c == '\u{2028}' || c == '\u{2029}' || c == '\u{202F}' || c
        == '\u{205F}' || c == '\u{3000}'
}

/// A decimal digit.
pub open spec fn is_digit_char(c: char) -> bool {
    '0' <= c && c <= '9'
}

/// A character that may start an identifier.
pub open spec fn is_ident_start_char(c: char) -> bool {
    ('a' <= c && c <= 'z') || ('A' <= c && c <= 'Z') || c == '_' || c == '$'
}

/// A character that may continue an identifier.
pub open spec fn is_ident_char(c: char) -> bool {
    ('a' <= c && c <= 'z') || ('A' <= c && c <= 'Z') || is_digit_char(c) || c == '_'
}

/// The UTF-8 byte width of one character.
pub open spec fn utf8_len(c: char) -> int {
    if c as int <= 0x7F {
        1
    } else if c as int <= 0x7FF {
        2
    } else if c as int <= 0xFFFF {
        3
    } else {
        4
    }
}

/// The byte offset of character index `i` of `s` in the UTF-8 encoding of
/// `s`.
pub open spec fn byte_off(s: Seq<char>, i: int) -> int
    decreases i,
{
    if i <= 0 {
        0
    } else {
        byte_off(s, i - 1) + utf8_len(s[i - 1])
    }
}

/// One character encodes to exactly [`utf8_len`] bytes.
proof fn lemma_utf8_len_matches_encoding(c: char)
    ensures
        vstd::utf8::encode_scalar(c as u32).len() == utf8_len(c),
{
}

/// Prepending one character shifts every byte offset by its width.
proof fn lemma_byte_off_drop_first(s: Seq<char>, i: int)
    requires
        0 <= i,
        s.len() > 0,
        i + 1 <= s.len(),
    ensures
        byte_off(s, i + 1) == utf8_len(s[0]) + byte_off(s.drop_first(), i),
    decreases i,
{
    let rest = s.drop_first();
    if i == 0 {
        assert(byte_off(s, 1) == byte_off(s, 0) + utf8_len(s[0]));
        assert(byte_off(s, 0) == 0);
        assert(byte_off(rest, 0) == 0);
    } else {
        lemma_byte_off_drop_first(s, i - 1);
        assert(rest[i - 1] == s[i]);
        assert(byte_off(s, i + 1) == byte_off(s, i) + utf8_len(s[i]));
        assert(byte_off(rest, i) == byte_off(rest, i - 1) + utf8_len(rest[i - 1]));
    }
}

/// The byte offset of the end of `s` is the length of its UTF-8 encoding.
proof fn lemma_byte_off_total(s: Seq<char>)
    ensures
        byte_off(s, s.len() as int) == vstd::utf8::encode_utf8(s).len(),
    decreases s.len(),
{
    if s.len() > 0 {
        lemma_utf8_len_matches_encoding(s[0]);
        lemma_byte_off_total(s.drop_first());
        lemma_byte_off_drop_first(s, s.len() - 1);
    }
}

/// Byte offsets grow with the character index.
proof fn lemma_byte_off_mono(s: Seq<char>, i: int, j: int)
    requires
        0 <= i <= j,
    ensures
        byte_off(s, i) <= byte_off(s, j),
    decreases j - i,
{
    if i < j {
        lemma_byte_off_mono(s, i, j - 1);
    }
}

/// The index of the newline that ends a line comment starting at or after
/// `i`, or the end of input.
pub open spec fn line_end(s: Seq<char>, i: int) -> int
    decreases s.len() - i,
{
    if 0 <= i < s.len() {
        if s[i] == '\n' {
            i
        } else {
            line_end(s, i + 1)
        }
    } else {
        s.len() as int
    }
}

/// The end of an identifier run starting at `i`.
pub open spec fn ident_end(s: Seq<char>, i: int) -> int
    decreases s.len() - i,
{
    if 0 <= i < s.len() && is_ident_char(s[i]) {
        ident_end(s, i + 1)
    } else {
        i
    }
}

/// The end of a numeral run (digits and dots) starting at `i`, stopping
/// early at a dot that is followed by another dot, so that range-like text
/// is not consumed.
pub open spec fn num_end(s: Seq<char>, i: int) -> int
    decreases s.len() - i,
{
    if 0 <= i < s.len() && (is_digit_char(s[i]) || s[i] == '.') {
        if s[i] == '.' && i + 1 < s.len() && s[i + 1] == '.' {
            i
        } else {
            num_end(s, i + 1)
        }
    } else {
        i
    }
}

/// The end of a numeral run after a minus sign: digits and dots, with no
/// early stop.
pub open spec fn neg_num_end(s: Seq<char>, i: int) -> int
    decreases s.len() - i,
{
    if 0 <= i < s.len() && (is_digit_char(s[i]) || s[i] == '.') {
        neg_num_end(s, i + 1)
    } else {
        i
    }
}

/// The index of the closing quote of a string literal whose content starts
/// at `i`, skipping one character after each backslash; `None` when the
/// input ends first.
pub open spec fn string_end(s: Seq<char>, i: int, quote: char) -> Option<int>
    decreases s.len() - i,
{
    if i < 0 || i >= s.len() {
        None
    } else if s[i] == quote {
        Some(i)
    } else if s[i] == '\\' {
        if i + 2 <= s.len() {
            string_end(s, i + 2, quote)
        } else {
            None
        }
    } else {
        string_end(s, i + 1, quote)
    }
}

/// The value of a digit string, most significant digit first.
pub open spec fn digits_val(s: Seq<char>) -> int
    decreases s.len(),
{
    if s.len() == 0 {
        0
    } else {
        digits_val(s.take(s.len() - 1)) * 10 + (s[s.len() - 1] as int - '0' as int)
    }
}

/// How many dots a numeral run contains.
pub open spec fn dot_count(s: Seq<char>) -> int
    decreases s.len(),
{
    if s.len() == 0 {
        0
    } else {
        dot_count(s.take(s.len() - 1)) + if s[s.len() - 1] == '.' {
            1int
        } else {
            0int
        }
    }
}

/// The token made of the numeral text `text` whose token starts at byte
/// offset `bstart`: an integer when it has no dot and fits 64 bits, a float
/// carrying its text (`sign` prepended) when it has one dot, and a
/// malformed-number error otherwise.
pub open spec fn spec_number_token(text: Seq<char>, sign: Seq<char>, bstart: int) -> Result<
    SpecToken,
    LexError,
> {
    let dots = dot_count(text);
    if dots == 0 {
        if digits_val(text) <= i64::MAX && (sign.len() == 0 || -digits_val(text) >= i64::MIN) {
            if sign.len() == 0 {
                Ok(SpecToken::Integer(digits_val(text)))
            } else {
                Ok(SpecToken::Integer(-digits_val(text)))
            }
        } else {
            Err(LexError::MalformedNumber(bstart as usize))
        }
    } else if dots == 1 {
        Ok(SpecToken::Float(sign + text))
    } else {
        Err(LexError::MalformedNumber(bstart as usize))
    }
}

/// The next token at character index `pos` (not whitespace, not a
/// comment), and the character index just past it. Errors carry the byte
/// offset of `pos`.
pub open spec fn spec_next_token(s: Seq<char>, pos: int) -> Result<(SpecToken, int), LexError> {
    let c = s[pos];
    let bstart = byte_off(s, pos);
    if c == '*' {
        Ok((SpecToken::Star, pos + 1))
    } else if c == '.' {
        if pos + 2 < s.len() && s[pos + 1] == '.' && s[pos + 2] == '.' {
            Ok((SpecToken::Ellipsis, pos + 3))
        } else {
            Ok((SpecToken::Dot, pos + 1))
        }
    } else if c == ',' {
        Ok((SpecToken::Comma, pos + 1))
    } else if c == ':' {
        Ok((SpecToken::Colon, pos + 1))
    } else if c == '@' {
        Ok((SpecToken::At, pos + 1))
    } else if c == '^' {
        Ok((SpecToken::Caret, pos + 1))
    } else if c == '(' {
        Ok((SpecToken::LParen, pos + 1))
    } else if c == ')' {
        Ok((SpecToken::RParen, pos + 1))
    } else if c == '[' {
        Ok((SpecToken::LBracket, pos + 1))
    } else if c == ']' {
        Ok((SpecToken::RBracket, pos + 1))
    } else if c == '{' {
        Ok((SpecToken::LBrace, pos + 1))
    } else if c == '}' {
        Ok((SpecToken::RBrace, pos + 1))
    } else if c == '=' {
        if pos + 1 < s.len() && s[pos + 1] == '=' {
            Ok((SpecToken::Eq, pos + 2))
        } else {
            Err(LexError::UnexpectedChar('=', bstart as usize))
        }
    } else if c == '!' {
        if pos + 1 < s.len() && s[pos + 1] == '=' {
            Ok((SpecToken::Neq, pos + 2))
        } else {
            Ok((SpecToken::Not, pos + 1))
        }
    } else if c == '<' {
        if pos + 1 < s.len() && s[pos + 1] == '=' {
            Ok((SpecToken::Lte, pos + 2))
        } else {
            Ok((SpecToken::Lt, pos + 1))
        }
    } else if c == '>' {
        if pos + 1 < s.len() && s[pos + 1] == '=' {
            Ok((SpecToken::Gte, pos + 2))
        } else {
            Ok((SpecToken::Gt, pos + 1))
        }
    } else if c == '&' {
        if pos + 1 < s.len() && s[pos + 1] == '&' {
            Ok((SpecToken::And, pos + 2))
        } else {
            Err(LexError::UnexpectedChar('&', bstart as usize))
        }
    } else if c == '|' {
        if pos + 1 < s.len() && s[pos + 1] == '|' {
            Ok((SpecToken::Or, pos + 2))
        } else {
            Ok((SpecToken::Pipe, pos + 1))
        }
    } else if c == '-' {
        if pos + 1 < s.len() && s[pos + 1] == '>' {
            Ok((SpecToken::Arrow, pos + 2))
        } else if pos + 1 < s.len() && is_digit_char(s[pos + 1]) {
            let end = neg_num_end(s, pos + 1);
            match spec_number_token(s.subrange(pos + 1, end), seq!['-'], bstart) {
                Ok(t) => Ok((t, end)),
                Err(e) => Err(e),
            }
        } else {
            Err(LexError::UnexpectedChar('-', bstart as usize))
        }
    } else if c == '"' || c == '\'' {
        match string_end(s, pos + 1, c) {
            Some(j) => Ok((SpecToken::String(s.subrange(pos + 1, j)), j + 1)),
            None => Err(LexError::UnterminatedString(bstart as usize)),
        }
    } else if is_digit_char(c) {
        let end = num_end(s, pos);
        match spec_number_token(s.subrange(pos, end), Seq::empty(), bstart) {
            Ok(t) => Ok((t, end)),
            Err(e) => Err(e),
        }
    } else if is_ident_start_char(c) {
        let end = ident_end(s, pos + 1);
        let word = s.subrange(pos, end);
        let t = if word == "true"@ {
            SpecToken::Bool(true)
        } else if word == "false"@ {
            SpecToken::Bool(false)
        } else if word == "null"@ {
            SpecToken::Null
        } else if word == "match"@ {
            SpecToken::Match
        } else if word == "in"@ {
            SpecToken::In
        } else if word == "asc"@ {
            SpecToken::Asc
        } else if word == "desc"@ {
            SpecToken::Desc
        } else {
            SpecToken::Ident(word)
        };
        Ok((t, end))
    } else {
        Err(LexError::UnexpectedChar(c, bstart as usize))
    }
}

proof fn lemma_line_end_bounds(s: Seq<char>, i: int)
    requires
        0 <= i <= s.len(),
    ensures
        i <= line_end(s, i) <= s.len(),
    decreases s.len() - i,
{
    if i < s.len() && s[i] != '\n' {
        lemma_line_end_bounds(s, i + 1);
    }
}

proof fn lemma_ident_end_bounds(s: Seq<char>, i: int)
    requires
        0 <= i <= s.len(),
    ensures
        i <= ident_end(s, i) <= s.len(),
    decreases s.len() - i,
{
    if i < s.len() && is_ident_char(s[i]) {
        lemma_ident_end_bounds(s, i + 1);
    }
}

proof fn lemma_num_end_bounds(s: Seq<char>, i: int)
    requires
        0 <= i <= s.len(),
    ensures
        i <= num_end(s, i) <= s.len(),
    decreases s.len() - i,
{
    if i < s.len() && (is_digit_char(s[i]) || s[i] == '.') {
        if !(s[i] == '.' && i + 1 < s.len() && s[i + 1] == '.') {
            lemma_num_end_bounds(s, i + 1);
        }
    }
}

proof fn lemma_neg_num_end_bounds(s: Seq<char>, i: int)
    requires
        0 <= i <= s.len(),
    ensures
        i <= neg_num_end(s, i) <= s.len(),
    decreases s.len() - i,
{
    if i < s.len() && (is_digit_char(s[i]) || s[i] == '.') {
        lemma_neg_num_end_bounds(s, i + 1);
    }
}

proof fn lemma_string_end_bounds(s: Seq<char>, i: int, quote: char)
    requires
        0 <= i,
    ensures
        match string_end(s, i, quote) {
            Some(j) => i <= j < s.len(),
            None => true,
        },
    decreases s.len() - i,
{
    if 0 <= i < s.len() && s[i] != quote {
        if s[i] == '\\' {
            if i + 2 <= s.len() {
                lemma_string_end_bounds(s, i + 2, quote);
            }
        } else {
            lemma_string_end_bounds(s, i + 1, quote);
        }
    }
}

proof fn lemma_next_token_bounds(s: Seq<char>, pos: int)
    requires
        0 <= pos < s.len(),
    ensures
        match spec_next_token(s, pos) {
            Ok((t, end)) => pos < end <= s.len(),
            Err(e) => true,
        },
{
    lemma_ident_end_bounds(s, pos + 1);
    lemma_string_end_bounds(s, pos + 1, s[pos]);
    lemma_num_end_bounds(s, pos + 1);
    lemma_neg_num_end_bounds(s, pos + 1);
}

/// The token sequence of the text from character index `pos` on:
/// whitespace and `//` comments are skipped, every other character starts
/// a token through [`spec_next_token`], and the sequence ends with one
/// `Eof` token whose empty span sits at the end of the input. Spans are
/// byte offsets into the UTF-8 encoding of the text.
pub open spec fn spec_tokenize(s: Seq<char>, pos: int) -> Result<Seq<SpecSpannedToken>, LexError>
    decreases s.len() - pos
    via spec_tokenize_dec
{
    if !(0 <= pos < s.len()) {
        Ok(
            seq![
                SpecSpannedToken {
                    token: SpecToken::Eof,
                    start: byte_off(s, s.len() as int),
                    end: byte_off(s, s.len() as int),
                },
            ],
        )
    } else if is_ws_char(s[pos]) {
        spec_tokenize(s, pos + 1)
    } else if s[pos] == '/' && pos + 1 < s.len() && s[pos + 1] == '/' {
        spec_tokenize(s, line_end(s, pos))
    } else {
        match spec_next_token(s, pos) {
            Ok((t, end)) => match spec_tokenize(s, end) {
                Ok(rest) => Ok(
                    seq![
                        SpecSpannedToken {
                            token: t,
                            start: byte_off(s, pos),
                            end: byte_off(s, end),
                        },
                    ] + rest,
                ),
                Err(e) => Err(e),
            },
            Err(e) => Err(e),
        }
    }
}

#[via_fn]
proof fn spec_tokenize_dec(s: Seq<char>, pos: int) {
    if 0 <= pos < s.len() {
        if is_ws_char(s[pos]) {
        } else if s[pos] == '/' && pos + 1 < s.len() && s[pos + 1] == '/' {
            lemma_line_end_bounds(s, pos + 1);
        } else {
            lemma_next_token_bounds(s, pos);
        }
    }
}

proof fn lemma_num_end_chars(s: Seq<char>, i: int)
    requires
        0 <= i <= s.len(),
    ensures
        forall|j: int| i <= j < num_end(s, i) ==> is_digit_char(#[trigger] s[j]) || s[j] == '.',
    decreases s.len() - i,
{
    lemma_num_end_bounds(s, i);
    if i < s.len() && (is_digit_char(s[i]) || s[i] == '.') {
        if !(s[i] == '.' && i + 1 < s.len() && s[i + 1] == '.') {
            lemma_num_end_chars(s, i + 1);
        }
    }
}

proof fn lemma_neg_num_end_chars(s: Seq<char>, i: int)
    requires
        0 <= i <= s.len(),
    ensures
        forall|j: int| i <= j < neg_num_end(s, i) ==> is_digit_char(#[trigger] s[j]) || s[j]
            == '.',
    decreases s.len() - i,
{
    lemma_neg_num_end_bounds(s, i);
    if i < s.len() && (is_digit_char(s[i]) || s[i] == '.') {
        lemma_neg_num_end_chars(s, i + 1);
    }
}

proof fn lemma_dot_count_nonneg(s: Seq<char>)
    ensures
        dot_count(s) >= 0,
    decreases s.len(),
{
    if s.len() > 0 {
        lemma_dot_count_nonneg(s.take(s.len() - 1));
    }
}

proof fn lemma_dot_count_zero(s: Seq<char>)
    requires
        dot_count(s) == 0,
    ensures
        forall|j: int| 0 <= j < s.len() ==> #[trigger] s[j] != '.',
    decreases s.len(),
{
    if s.len() > 0 {
        lemma_dot_count_nonneg(s.take(s.len() - 1));
        lemma_dot_count_zero(s.take(s.len() - 1));
        assert forall|j: int| 0 <= j < s.len() implies #[trigger] s[j] != '.' by {
            if j < s.len() - 1 {
                assert(s.take(s.len() - 1)[j] == s[j]);
            }
        }
    }
}

proof fn lemma_digits_val_nonneg(s: Seq<char>)
    requires
        forall|j: int| 0 <= j < s.len() ==> is_digit_char(#[trigger] s[j]),
    ensures
        digits_val(s) >= 0,
    decreases s.len(),
{
    if s.len() > 0 {
        lemma_digits_val_nonneg(s.take(s.len() - 1));
    }
}

proof fn lemma_digits_val_prefix_le(s: Seq<char>, k: int)
    requires
        forall|j: int| 0 <= j < s.len() ==> is_digit_char(#[trigger] s[j]),
        0 <= k <= s.len(),
    ensures
        digits_val(s.take(k)) <= digits_val(s),
    decreases s.len() - k,
{
    if k < s.len() {
        lemma_digits_val_nonneg(s.take(k));
        assert(s.take(k + 1).take(k) =~= s.take(k));
        assert(digits_val(s.take(k + 1)) == digits_val(s.take(k)) * 10 + (s[k] as int
            - '0' as int));
        lemma_digits_val_prefix_le(s, k + 1);
    } else {
        assert(s.take(k) =~= s);
    }
}

/// Is `c` whitespace?
fn is_ws(c: char) -> (r: bool)
    ensures
        r == is_ws_char(c),
{
    c == ' ' || c == '\t' || c == '\n' || c == '\u{000B}' || c == '\u{000C}' || c == '\r'
        || c == '\u{0085}' || c == '\u{00A0}' || c == '\u{1680}' || ('\u{2000}' <= c && c
        <= '\u{200A}') || c == '\u{2028}' || c == '\u{2029}' || c == '\u{202F}' || c
        == '\u{205F}' || c == '\u{3000}'
}

/// Is `c` a decimal digit?
fn is_digit(c: char) -> (r: bool)
    ensures
        r == is_digit_char(c),
{
    '0' <= c && c <= '9'
}

/// May `c` start an identifier?
fn is_ident_start(c: char) -> (r: bool)
    ensures
        r == is_ident_start_char(c),
{
    ('a' <= c && c <= 'z') || ('A' <= c && c <= 'Z') || c == '_' || c == '$'
}

/// May `c` continue an identifier?
fn is_ident_cont(c: char) -> (r: bool)
    ensures
        r == is_ident_char(c),
{
    ('a' <= c && c <= 'z') || ('A' <= c && c <= 'Z') || ('0' <= c && c <= '9') || c == '_'
}

/// Find the newline ending a comment, or the end of input.
fn scan_line_end(s: &str, from: usize) -> (r: usize)
    requires
        from <= s@.len(),
    ensures
        r as int == line_end(s@, from as int),
        from <= r <= s@.len(),
{
    let len = s.unicode_len();
    let mut i: usize = from;
    while i < len
        invariant
            from <= i <= len,
            len == s@.len(),
            line_end(s@, from as int) == line_end(s@, i as int),
        decreases len - i,
    {
        if s.get_char(i) == '\n' {
            return i;
        }
        i = i + 1;
    }
    len
}

/// Find the end of an identifier run.
fn scan_ident_end(s: &str, from: usize) -> (r: usize)
    requires
        from <= s@.len(),
    ensures
        r as int == ident_end(s@, from as int),
        from <= r <= s@.len(),
{
    let len = s.unicode_len();
    let mut i: usize = from;
    while i < len
        invariant
            from <= i <= len,
            len == s@.len(),
            ident_end(s@, from as int) == ident_end(s@, i as int),
        decreases len - i,
    {
        if !is_ident_cont(s.get_char(i)) {
            return i;
        }
        i = i + 1;
    }
    len
}

/// Find the end of a numeral run, stopping early at `..`.
fn scan_num_end(s: &str, from: usize) -> (r: usize)
    requires
        from <= s@.len(),
    ensures
        r as int == num_end(s@, from as int),
        from <= r <= s@.len(),
{
    let len = s.unicode_len();
    let mut i: usize = from;
    while i < len
        invariant
            from <= i <= len,
            len == s@.len(),
            num_end(s@, from as int) == num_end(s@, i as int),
        decreases len - i,
    {
        let c = s.get_char(i);
        if !(is_digit(c) || c == '.') {
            return i;
        }
        if c == '.' && i + 1 < len && s.get_char(i + 1) == '.' {
            return i;
        }
        i = i + 1;
    }
    len
}

/// Find the end of a numeral run after a minus sign.
fn scan_neg_num_end(s: &str, from: usize) -> (r: usize)
    requires
        from <= s@.len(),
    ensures
        r as int == neg_num_end(s@, from as int),
        from <= r <= s@.len(),
{
    let len = s.unicode_len();
    let mut i: usize = from;
    while i < len
        invariant
            from <= i <= len,
            len == s@.len(),
            neg_num_end(s@, from as int) == neg_num_end(s@, i as int),
        decreases len - i,
    {
        let c = s.get_char(i);
        if !(is_digit(c) || c == '.') {
            return i;
        }
        i = i + 1;
    }
    len
}

/// Find the closing quote of a string literal whose content starts at
/// `from`, honouring backslash escapes.
fn scan_string_end(s: &str, from: usize, quote: char) -> (r: Option<usize>)
    requires
        from <= s@.len(),
    ensures
        match r {
            Some(j) => string_end(s@, from as int, quote) == Some(j as int) && from <= j
                < s@.len(),
            None => string_end(s@, from as int, quote) is None,
        },
{
    let len = s.unicode_len();
    let mut i: usize = from;
    while i < len
        invariant
            from <= i <= len,
            len == s@.len(),
            string_end(s@, from as int, quote) == string_end(s@, i as int, quote),
        decreases len - i,
    {
        let c = s.get_char(i);
        if c == quote {
            return Some(i);
        }
        if c == '\\' {
            if i + 1 < len {
                i = i + 2;
            } else {
                return None;
            }
        } else {
            i = i + 1;
        }
    }
    None
}

/// Count the dots in a numeral text.
fn count_dots(t: &str) -> (r: usize)
    ensures
        r as int == dot_count(t@),
{
    let len = t.unicode_len();
    let mut n: usize = 0;
    let mut i: usize = 0;
    while i < len
        invariant
            i <= len,
            len == t@.len(),
            n <= i,
            n as int == dot_count(t@.take(i as int)),
        decreases len - i,
    {
        proof {
            assert(t@.take(i + 1).take(i as int) =~= t@.take(i as int));
            assert(t@.take(i + 1)[i as int] == t@[i as int]);
        }
        if t.get_char(i) == '.' {
            n = n + 1;
        }
        i = i + 1;
    }
    proof {
        assert(t@.take(len as int) =~= t@);
    }
    n
}

/// Parse an all-digit text into a 64-bit integer; `None` when its value is
/// too large.
fn parse_digits(t: &str) -> (r: Option<i64>)
    requires
        forall|j: int| 0 <= j < t@.len() ==> is_digit_char(#[trigger] t@[j]),
    ensures
        match r {
            Some(n) => digits_val(t@) <= i64::MAX && n as int == digits_val(t@) && n >= 0,
            None => digits_val(t@) > i64::MAX,
        },
{
    let len = t.unicode_len();
    let mut acc: i64 = 0;
    let mut i: usize = 0;
    #[verifier::loop_isolation(false)]
    while i < len
        invariant
            i <= len,
            0 <= acc,
            acc as int == digits_val(t@.take(i as int)),
        decreases len - i,
    {
        let c = t.get_char(i);
        let d = (c as u32) - ('0' as u32);
        proof {
            assert(t@.take(i + 1).take(i as int) =~= t@.take(i as int));
            assert(t@.take(i + 1)[i as int] == t@[i as int]);
            assert(digits_val(t@.take(i + 1)) == (acc as int) * 10 + d);
        }
        if acc > (i64::MAX - (d as i64)) / 10 {
            proof {
                assert((acc as int) * 10 + d > i64::MAX);
                lemma_digits_val_prefix_le(t@, i + 1);
            }
            return None;
        }
        acc = acc * 10 + (d as i64);
        i = i + 1;
    }
    proof {
        assert(t@.take(len as int) =~= t@);
    }
    Some(acc)
}

/// The UTF-8 byte width of one character.
fn utf8_len_exec(c: char) -> (r: usize)
    ensures
        r as int == utf8_len(c),
{
    let v = c as u32;
    if v <= 0x7F {
        1
    } else if v <= 0x7FF {
        2
    } else if v <= 0xFFFF {
        3
    } else {
        4
    }
}

/// Step a byte offset from character index `from` to `to`.
fn advance_bytes(s: &str, from: usize, to: usize, bfrom: usize) -> (r: usize)
    requires
        from <= to <= s@.len(),
        bfrom as int == byte_off(s@, from as int),
        byte_off(s@, s@.len() as int) <= usize::MAX,
    ensures
        r as int == byte_off(s@, to as int),
{
    let mut i: usize = from;
    let mut b: usize = bfrom;
    while i < to
        invariant
            from <= i <= to,
            to <= s@.len(),
            b as int == byte_off(s@, i as int),
            byte_off(s@, s@.len() as int) <= usize::MAX,
        decreases to - i,
    {
        proof {
            lemma_byte_off_mono(s@, i + 1, s@.len() as int);
            lemma_byte_off_mono(s@, 0, i as int);
        }
        b = b + utf8_len_exec(s.get_char(i));
        i = i + 1;
    }
    b
}

/// Tokenize a GROQ query string into a sequence of spanned tokens ending
/// with `Eof`, or report the first lexing failure. Spans and error
/// positions are byte offsets into the UTF-8 encoding of the input.
pub fn tokenize(input: &str) -> (r: Result<Vec<SpannedToken>, LexError>)
    ensures
        match r {
            Ok(toks) => spec_tokenize(input@, 0) == Ok::<Seq<SpecSpannedToken>, LexError>(
                tokens_view(toks@),
            ),
            Err(e) => spec_tokenize(input@, 0) == Err::<Seq<SpecSpannedToken>, LexError>(e),
        },
{
    let len = input.unicode_len();
    let nbytes = input.as_bytes().len();
    proof {
        lemma_byte_off_total(input@);
        assert(byte_off(input@, input@.len() as int) == nbytes as int);
    }
    let mut tokens: Vec<SpannedToken> = Vec::new();
    let mut pos: usize = 0;
    let mut bpos: usize = 0;
    proof {
        assert(tokens_view(tokens@) =~= Seq::<SpecSpannedToken>::empty());
    }
    #[verifier::loop_isolation(false)]
    while pos < len
        invariant
            0 <= pos <= len,
            bpos as int == byte_off(input@, pos as int),
            match spec_tokenize(input@, pos as int) {
                Ok(rest) => spec_tokenize(input@, 0) == Ok::<Seq<SpecSpannedToken>, LexError>(
                    tokens_view(tokens@) + rest,
                ),
                Err(e) => spec_tokenize(input@, 0) == Err::<Seq<SpecSpannedToken>, LexError>(e),
            },
        decreases len - pos,
    {
        let ghost s = input@;
        let c = input.get_char(pos);
        if is_ws(c) {
            bpos = advance_bytes(input, pos, pos + 1, bpos);
            pos = pos + 1;
        } else if c == '/' && pos + 1 < len && input.get_char(pos + 1) == '/' {
            proof {
                lemma_line_end_bounds(s, (pos + 1) as int);
                assert(line_end(s, pos as int) == line_end(s, (pos + 1) as int));
            }
            let comment_end = scan_line_end(input, pos);
            bpos = advance_bytes(input, pos, comment_end, bpos);
            pos = comment_end;
        } else {
            let start = pos;
            let ghost spec_step = spec_next_token(s, start as int);
            let token: Token;
            let newpos: usize;
            if c == '*' {
                token = Token::Star;
                newpos = pos + 1;
            } else if c == '.' {
                if len - pos > 2 && input.get_char(pos + 1) == '.' && input.get_char(pos + 2)
                    == '.' {
                    token = Token::Ellipsis;
                    newpos = pos + 3;
                } else {
                    token = Token::Dot;
                    newpos = pos + 1;
                }
            } else if c == ',' {
                token = Token::Comma;
                newpos = pos + 1;
            } else if c == ':' {
                token = Token::Colon;
                newpos = pos + 1;
            } else if c == '@' {
                token = Token::At;
                newpos = pos + 1;
            } else if c == '^' {
                token = Token::Caret;
                newpos = pos + 1;
            } else if c == '(' {
                token = Token::LParen;
                newpos = pos + 1;
            } else if c == ')' {
                token = Token::RParen;
                newpos = pos + 1;
            } else if c == '[' {
                token = Token::LBracket;
                newpos = pos + 1;
            } else if c == ']' {
                token = Token::RBracket;
                newpos = pos + 1;
            } else if c == '{' {
                token = Token::LBrace;
                newpos = pos + 1;
            } else if c == '}' {
                token = Token::RBrace;
                newpos = pos + 1;
            } else if c == '=' {
                if pos + 1 < len && input.get_char(pos + 1) == '=' {
                    token = Token::Eq;
                    newpos = pos + 2;
                } else {
                    return Err(LexError::UnexpectedChar('=', bpos));
                }
            } else if c == '!' {
                if pos + 1 < len && input.get_char(pos + 1) == '=' {
                    token = Token::Neq;
                    newpos = pos + 2;
                } else {
                    token = Token::Not;
                    newpos = pos + 1;
                }
            } else if c == '<' {
                if pos + 1 < len && input.get_char(pos + 1) == '=' {
                    token = Token::Lte;
                    newpos = pos + 2;
                } else {
                    token = Token::Lt;
                    newpos = pos + 1;
                }
            } else if c == '>' {
                if pos + 1 < len && input.get_char(pos + 1) == '=' {
                    token = Token::Gte;
                    newpos = pos + 2;
                } else {
                    token = Token::Gt;
                    newpos = pos + 1;
                }
            } else if c == '&' {
                if pos + 1 < len && input.get_char(pos + 1) == '&' {
                    token = Token::And;
                    newpos = pos + 2;
                } else {
                    return Err(LexError::UnexpectedChar('&', bpos));
                }
            } else if c == '|' {
                if pos + 1 < len && input.get_char(pos + 1) == '|' {
                    token = Token::Or;
                    newpos = pos + 2;
                } else {
                    token = Token::Pipe;
                    newpos = pos + 1;
                }
            } else if c == '-' {
                if pos + 1 < len && input.get_char(pos + 1) == '>' {
                    token = Token::Arrow;
                    newpos = pos + 2;
                } else if pos + 1 < len && is_digit(input.get_char(pos + 1)) {
                    let end = scan_neg_num_end(input, pos + 1);
                    let text = input.substring_char(pos + 1, end);
                    let dots = count_dots(text);
                    proof {
                        lemma_dot_count_nonneg(text@);
                    }
                    if dots == 0 {
                        proof {
                            lemma_neg_num_end_chars(s, pos + 1 as int);
                            lemma_dot_count_zero(text@);
                            assert(forall|j: int| 0 <= j < text@.len() ==> is_digit_char(
                                #[trigger] text@[j],
                            ));
                        }
                        match parse_digits(text) {
                            Some(n) => {
                                token = Token::Integer(-n);
                                newpos = end;
                            },
                            None => {
                                return Err(LexError::MalformedNumber(bpos));
                            },
                        }
                    } else if dots == 1 {
                        let mut f = String::from_str("-");
                        f.append(text);
                        proof {
                            reveal_strlit("-");
                            assert("-"@ =~= seq!['-']);
                        }
                        token = Token::Float(f);
                        newpos = end;
                    } else {
                        return Err(LexError::MalformedNumber(bpos));
                    }
                } else {
                    return Err(LexError::UnexpectedChar('-', bpos));
                }
            } else if c == '"' || c == '\'' {
                match scan_string_end(input, pos + 1, c) {
                    Some(j) => {
                        let text = input.substring_char(pos + 1, j);
                        token = Token::String(String::from_str(text));
                        newpos = j + 1;
                    },
                    None => {
                        return Err(LexError::UnterminatedString(bpos));
                    },
                }
            } else if is_digit(c) {
                let end = scan_num_end(input, pos);
                let text = input.substring_char(pos, end);
                let dots = count_dots(text);
                proof {
                    lemma_dot_count_nonneg(text@);
                }
                if dots == 0 {
                    proof {
                        lemma_num_end_chars(s, pos as int);
                        lemma_dot_count_zero(text@);
                        assert(forall|j: int| 0 <= j < text@.len() ==> is_digit_char(
                            #[trigger] text@[j],
                        ));
                    }
                    match parse_digits(text) {
                        Some(n) => {
                            proof {
                                assert(Seq::<char>::empty() + text@ =~= text@);
                            }
                            token = Token::Integer(n);
                            newpos = end;
                        },
                        None => {
                            return Err(LexError::MalformedNumber(bpos));
                        },
                    }
                } else if dots == 1 {
                    proof {
                        assert(Seq::<char>::empty() + text@ =~= text@);
                    }
                    token = Token::Float(String::from_str(text));
                    newpos = end;
                } else {
                    return Err(LexError::MalformedNumber(bpos));
                }
            } else if is_ident_start(c) {
                let end = scan_ident_end(input, pos + 1);
                let word = input.substring_char(pos, end);
                if crate::text::str_eq(word, "true") {
                    token = Token::Bool(true);
                } else if crate::text::str_eq(word, "false") {
                    token = Token::Bool(false);
                } else if crate::text::str_eq(word, "null") {
                    token = Token::Null;
                } else if crate::text::str_eq(word, "match") {
                    token = Token::Match;
                } else if crate::text::str_eq(word, "in") {
                    token = Token::In;
                } else if crate::text::str_eq(word, "asc") {
                    token = Token::Asc;
                } else if crate::text::str_eq(word, "desc") {
                    token = Token::Desc;
                } else {
                    token = Token::Ident(String::from_str(word));
                }
                newpos = end;
            } else {
                return Err(LexError::UnexpectedChar(c, bpos));
            }
            proof {
                lemma_next_token_bounds(s, start as int);
                assert(spec_step == Ok::<(SpecToken, int), LexError>(
                    (token@, newpos as int),
                ));
            }
            let newb = advance_bytes(input, start, newpos, bpos);
            let ghost old_tokens = tokens@;
            tokens.push(SpannedToken { token, span: Span { start: bpos, end: newb } });
            pos = newpos;
            bpos = newb;
            proof {
                assert(tokens_view(tokens@) =~= tokens_view(old_tokens) + seq![
                    tokens@[old_tokens.len() as int]@,
                ]);
                match spec_tokenize(s, pos as int) {
                    Ok(rest) => {
                        assert((tokens_view(old_tokens) + seq![
                            tokens@[old_tokens.len() as int]@,
                        ]) + rest =~= tokens_view(old_tokens) + (seq![
                            tokens@[old_tokens.len() as int]@,
                        ] + rest));
                    },
                    Err(e) => {},
                }
            }
        }
    }
    let ghost old_tokens = tokens@;
    tokens.push(SpannedToken { token: Token::Eof, span: Span { start: bpos, end: bpos } });
    proof {
        assert(tokens_view(tokens@) =~= tokens_view(old_tokens) + seq![
            tokens@[old_tokens.len() as int]@,
        ]);
    }
    Ok(tokens)
}

/// `s` tokenizes to exactly the one token `t` followed by `Eof`.
pub open spec fn lexes_to_single(s: Seq<char>, t: SpecToken) -> bool {
    match spec_tokenize(s, 0) {
        Ok(ts) => ts.len() == 2 && ts[0].token == t && ts[1].token == SpecToken::Eof,
        Err(_) => false,
    }
}

/// Every punctuation and operator text of the grammar tokenizes, on its
/// own, to exactly the matching token kind and nothing else.
#[verifier::rlimit(100)]
#[verifier::spinoff_prover]
pub proof fn lemma_operator_round_trip()
    ensures
        lexes_to_single("=="@, SpecToken::Eq),
        lexes_to_single("!="@, SpecToken::Neq),
        lexes_to_single("<"@, SpecToken::Lt),
        lexes_to_single(">"@, SpecToken::Gt),
        lexes_to_single("<="@, SpecToken::Lte),
        lexes_to_single(">="@, SpecToken::Gte),
        lexes_to_single("&&"@, SpecToken::And),
        lexes_to_single("||"@, SpecToken::Or),
        lexes_to_single("!"@, SpecToken::Not),
        lexes_to_single("*"@, SpecToken::Star),
        lexes_to_single("."@, SpecToken::Dot),
        lexes_to_single(","@, SpecToken::Comma),
        lexes_to_single(":"@, SpecToken::Colon),
        lexes_to_single("|"@, SpecToken::Pipe),
        lexes_to_single("->"@, SpecToken::Arrow),
        lexes_to_single("@"@, SpecToken::At),
        lexes_to_single("^"@, SpecToken::Caret),
        lexes_to_single("..."@, SpecToken::Ellipsis),
        lexes_to_single("("@, SpecToken::LParen),
        lexes_to_single(")"@, SpecToken::RParen),
        lexes_to_single("["@, SpecToken::LBracket),
        lexes_to_single("]"@, SpecToken::RBracket),
        lexes_to_single("{"@, SpecToken::LBrace),
        lexes_to_single("}"@, SpecToken::RBrace),
{
    reveal_strlit("==");
    reveal_strlit("!=");
    reveal_strlit("<");
    reveal_strlit(">");
    reveal_strlit("<=");
    reveal_strlit(">=");
    reveal_strlit("&&");
    reveal_strlit("||");
    reveal_strlit("!");
    reveal_strlit("*");
    reveal_strlit(".");
    reveal_strlit(",");
    reveal_strlit(":");
    reveal_strlit("|");
    reveal_strlit("->");
    reveal_strlit("@");
    reveal_strlit("^");
    reveal_strlit("...");
    reveal_strlit("(");
    reveal_strlit(")");
    reveal_strlit("[");
    reveal_strlit("]");
    reveal_strlit("{");
    reveal_strlit("}");
    reveal_with_fuel(spec_tokenize, 3);
}

} // verus!
