//! Mathematical model of one scan pass.
//!
//! A scan is modelled as a pair of mutually recursive functions over the
//! source character sequence: [`scan_from`] classifies one lexical unit at
//! the cursor and recurses behind it, and [`scan_comment`] consumes the body
//! of a line comment. The executable scanner in [`crate::lexer`] promises to
//! produce exactly the token and error sequences these functions describe.

use vstd::prelude::*;

use crate::lexer::TokenType;

verus! {

/// Model of one classified token: its kind, the exact source substring that
/// produced it, the optional literal payload, and its 1-based line.
pub ghost struct SpecToken {
    pub kind: TokenType,
    pub lexeme: Seq<char>,
    pub literal: Option<SpecLiteral>,
    pub line: int,
}

/// Model of a literal payload carried by identifier, string and number
/// tokens. The numeric payload is the bit pattern of the double value, as
/// the executable [`crate::lexer::Literal`] holds it.
pub ghost enum SpecLiteral {
    Identifier(Seq<char>),
    Str(Seq<char>),
    Num(u64),
}

/// Model of one recoverable scan failure.
pub ghost struct SpecError {
    pub message: Seq<char>,
    pub line: int,
}

/// What one scan pass produces: the token sequence and the error sequence.
pub ghost struct ScanOutput {
    pub tokens: Seq<SpecToken>,
    pub errors: Seq<SpecError>,
}

/// The token kind for a fixed single-character punctuation lexeme, if the
/// character is one.
pub open spec fn single_char_kind(c: char) -> Option<TokenType> {
    if c == '(' {
        Some(TokenType::LeftParen)
    } else if c == ')' {
        Some(TokenType::RightParen)
    } else if c == '{' {
        Some(TokenType::LeftBrace)
    } else if c == '}' {
        Some(TokenType::RightBrace)
    } else if c == ',' {
        Some(TokenType::Comma)
    } else if c == '.' {
        Some(TokenType::Dot)
    } else if c == '-' {
        Some(TokenType::Minus)
    } else if c == '+' {
        Some(TokenType::Plus)
    } else if c == ';' {
        Some(TokenType::Semicolon)
    } else if c == '*' {
        Some(TokenType::Star)
    } else {
        None
    }
}

/// Whether the character starts a one-or-two-character operator.
pub open spec fn is_operator_start(c: char) -> bool {
    c == '!' || c == '=' || c == '<' || c == '>'
}

/// The kind of an operator that starts with `c`: the two-character variant
/// when a `=` follows, the one-character variant otherwise.
pub open spec fn operator_kind(c: char, with_equal: bool) -> TokenType {
    if c == '!' {
        if with_equal { TokenType::BangEqual } else { TokenType::Bang }
    } else if c == '=' {
        if with_equal { TokenType::EqualEqual } else { TokenType::Equal }
    } else if c == '<' {
        if with_equal { TokenType::LessEqual } else { TokenType::Less }
    } else {
        if with_equal { TokenType::GreaterEqual } else { TokenType::Greater }
    }
}

/// Whitespace that is consumed without effect: space, carriage return,
/// horizontal tab. The newline is handled separately, since it advances the
/// line counter.
pub open spec fn is_blank(c: char) -> bool {
    c == ' ' || c == '\r' || c == '\t'
}

/// A character no scanning branch recognizes: it produces one recoverable
/// error and scanning continues behind it.
pub open spec fn is_unexpected(c: char) -> bool {
    &&& single_char_kind(c) is None
    &&& !is_operator_start(c)
    &&& c != '/'
    &&& !is_blank(c)
    &&& c != '\n'
}

/// The message carried by every unexpected-character error.
pub open spec fn unexpected_char_message() -> Seq<char> {
    "Unexpected character"@
}

/// The error recorded for an unrecognized character on `line`.
pub open spec fn unexpected_char_error(line: int) -> SpecError {
    SpecError { message: unexpected_char_message(), line }
}

/// The synthetic end-of-input token: empty lexeme, no payload, stamped with
/// the line that was current when the input ran out.
pub open spec fn eof_token(line: int) -> SpecToken {
    SpecToken { kind: TokenType::Eof, lexeme: Seq::empty(), literal: None, line }
}

/// A token without a literal payload; every token the scanner currently
/// produces is one.
pub open spec fn plain_token(kind: TokenType, lexeme: Seq<char>, line: int) -> SpecToken {
    SpecToken { kind, lexeme, literal: None, line }
}

/// Prepend one token to a scan output.
pub open spec fn with_token(t: SpecToken, rest: ScanOutput) -> ScanOutput {
    ScanOutput { tokens: seq![t] + rest.tokens, errors: rest.errors }
}

/// Prepend one error to a scan output.
pub open spec fn with_error(e: SpecError, rest: ScanOutput) -> ScanOutput {
    ScanOutput { tokens: rest.tokens, errors: seq![e] + rest.errors }
}

/// How many newline characters occur strictly before position `i`.
pub open spec fn newline_count(src: Seq<char>, i: int) -> int
    decreases i,
{
    if i <= 0 {
        0
    } else {
        newline_count(src, i - 1) + (if 0 <= i - 1 < src.len() && src[i - 1] == '\n' {
            1int
        } else {
            0int
        })
    }
}

/// The rest of a scan pass, from cursor position `i` with line counter
/// `line`: one lexical unit is classified at `i` exactly as the scanner's
/// dispatch does, and scanning continues behind it. The result always ends
/// in the end-of-input token stamped with the line that is current when the
/// input runs out. Two-character operators win over their one-character
/// prefix, and the lookahead never reads past the end of the input.
pub open spec fn scan_from(src: Seq<char>, i: int, line: int) -> ScanOutput
    decreases src.len() - i, 1int,
{
    if i < 0 || i >= src.len() {
        ScanOutput { tokens: seq![eof_token(line)], errors: Seq::empty() }
    } else {
        let c = src[i];
        match single_char_kind(c) {
            Some(kind) => with_token(
                plain_token(kind, src.subrange(i, i + 1), line),
                scan_from(src, i + 1, line),
            ),
            None => {
                if is_operator_start(c) {
                    if i + 1 < src.len() && src[i + 1] == '=' {
                        with_token(
                            plain_token(operator_kind(c, true), src.subrange(i, i + 2), line),
                            scan_from(src, i + 2, line),
                        )
                    } else {
                        with_token(
                            plain_token(operator_kind(c, false), src.subrange(i, i + 1), line),
                            scan_from(src, i + 1, line),
                        )
                    }
                } else if c == '/' {
                    if i + 1 < src.len() && src[i + 1] == '/' {
                        scan_comment(src, i + 2, line)
                    } else {
                        with_token(
                            plain_token(TokenType::Slash, src.subrange(i, i + 1), line),
                            scan_from(src, i + 1, line),
                        )
                    }
                } else if is_blank(c) {
                    scan_from(src, i + 1, line)
                } else if c == '\n' {
                    scan_from(src, i + 1, line + 1)
                } else {
                    with_error(unexpected_char_error(line), scan_from(src, i + 1, line))
                }
            },
        }
    }
}

/// The rest of a scan pass while inside a line comment: characters are
/// consumed without producing anything, up to but not including the next
/// newline; the newline itself is then consumed as ordinary whitespace,
/// advancing the line counter.
pub open spec fn scan_comment(src: Seq<char>, i: int, line: int) -> ScanOutput
    decreases src.len() - i, 0int,
{
    if i < 0 || i >= src.len() {
        ScanOutput { tokens: seq![eof_token(line)], errors: Seq::empty() }
    } else if src[i] == '\n' {
        scan_from(src, i + 1, line + 1)
    } else {
        scan_comment(src, i + 1, line)
    }
}

/// The full scan of one source text: cursor at the start, line counter 1.
pub open spec fn scan(src: Seq<char>) -> ScanOutput {
    scan_from(src, 0, 1)
}

/// Concatenating after a push is the same as splicing a singleton in the
/// middle.
pub proof fn lemma_push_concat<T>(a: Seq<T>, x: T, b: Seq<T>)
    ensures
        a.push(x) + b == a + (seq![x] + b),
{
    assert(a.push(x) + b =~= a + (seq![x] + b));
}

/// There are never more newlines before a position than characters.
pub proof fn lemma_newline_count_bounds(src: Seq<char>, i: int)
    requires
        0 <= i,
    ensures
        0 <= newline_count(src, i) <= i,
    decreases i,
{
    if i > 0 {
        lemma_newline_count_bounds(src, i - 1);
    }
}

} // verus!
