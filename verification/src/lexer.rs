//! The scanner: a single left-to-right pass that partitions source text
//! into classified tokens, with bounded one-character lookahead, line
//! tracking, and non-fatal recovery from unexpected characters.

use vstd::prelude::*;
use vstd::string::StrSliceExecFns;

use crate::model::{
    eof_token, lemma_newline_count_bounds, lemma_push_concat, newline_count, scan, scan_comment,
    scan_from, unexpected_char_error, with_error, with_token, ScanOutput, SpecError, SpecLiteral,
    SpecToken,
};
use crate::utils::Error;

verus! {

/// The closed set of token kinds. The literal and keyword kinds (and the
/// square-bracket pair) are declared for forward compatibility; no scanning
/// branch produces them yet.
#[derive(Debug, PartialEq)]
pub enum TokenType {
    // Single-character tokens.
    LeftParen,
    RightParen,
    LeftBrace,
    RightBrace,
    LeftBracket,
    RightBracket,
    Comma,
    Dot,
    Minus,
    Plus,
    Semicolon,
    Slash,
    Star,
    // One or two character tokens.
    Bang,
    BangEqual,
    Equal,
    EqualEqual,
    Greater,
    GreaterEqual,
    Less,
    LessEqual,
    // Literals.
    Identifier,
    String,
    Number,
    // Keywords.
    And,
    Class,
    Else,
    False,
    Fun,
    For,
    If,
    Nil,
    Or,
    Print,
    Return,
    Super,
    This,
    True,
    Var,
    While,
    Lambda,
    Eof,
}

/// A literal payload, present only on literal-bearing token kinds. The
/// numeric payload holds the IEEE-754 bit pattern of the double value, so
/// that the token model stays within plain integer data.
#[derive(Debug, PartialEq)]
pub enum Literal {
    Identifier(String),
    Str(String),
    Num(u64),
}

impl View for Literal {
    type V = SpecLiteral;

    open spec fn view(&self) -> SpecLiteral {
        match self {
            Literal::Identifier(s) => SpecLiteral::Identifier(s@),
            Literal::Str(s) => SpecLiteral::Str(s@),
            Literal::Num(bits) => SpecLiteral::Num(*bits),
        }
    }
}

/// One classified lexical unit: its kind, the exact source substring that
/// produced it, the optional literal payload, and the 1-based line on which
/// its first character occurs.
#[derive(Debug, PartialEq)]
pub struct Token {
    pub token_type: TokenType,
    pub lexeme: String,
    pub literal: Option<Literal>,
    pub line: u32,
}

impl View for Token {
    type V = SpecToken;

    open spec fn view(&self) -> SpecToken {
        SpecToken {
            kind: self.token_type,
            lexeme: self.lexeme@,
            literal: match self.literal {
                Option::None => None,
                Option::Some(l) => Some(l@),
            },
            line: self.line as int,
        }
    }
}

impl Token {
    /// The synthetic end-of-input token for the given line.
    pub fn eof(line: u32) -> (t: Token)
        ensures
            t@ == eof_token(line as int),
    {
        Token { token_type: TokenType::Eof, lexeme: String::new(), literal: None, line }
    }
}

/// The view of an emitted token sequence, token by token.
pub open spec fn tokens_view(tokens: Seq<Token>) -> Seq<SpecToken> {
    tokens.map_values(|t: Token| t@)
}

/// The view of an emitted error sequence, error by error.
pub open spec fn errors_view(errors: Seq<Error>) -> Seq<SpecError> {
    errors.map_values(|e: Error| e@)
}

proof fn lemma_tokens_view_push(tokens: Seq<Token>, t: Token)
    ensures
        tokens_view(tokens.push(t)) == tokens_view(tokens).push(t@),
{
    assert(tokens_view(tokens.push(t)) =~= tokens_view(tokens).push(t@));
}

proof fn lemma_errors_view_push(errors: Seq<Error>, e: Error)
    ensures
        errors_view(errors.push(e)) == errors_view(errors).push(e@),
{
    assert(errors_view(errors.push(e)) =~= errors_view(errors).push(e@));
}

/// Relies on `String::push`: appends the given character to the end of the
/// string.
#[verifier::external_body]
fn push_char(s: &mut String, c: char)
    ensures
        final(s)@ == old(s)@.push(c),
{
    s.push(c);
}

/// The source text as the vector of its characters, in order.
fn source_chars(text: &str) -> (chars: Vec<char>)
    ensures
        chars@ == text@,
{
    let n = text.unicode_len();
    let mut chars: Vec<char> = Vec::new();
    let mut i: usize = 0;
    while i < n
        invariant
            i <= n,
            n == text@.len(),
            chars@ == text@.take(i as int),
        decreases n - i,
    {
        chars.push(text.get_char(i));
        i += 1;
        proof {
            assert(text@.take(i as int) =~= text@.take(i as int - 1).push(text@[i as int - 1]));
        }
    }
    proof {
        assert(text@.take(n as int) =~= text@);
    }
    chars
}

/// The substring of the character buffer from `start` (inclusive) to `end`
/// (exclusive), as an owned string.
fn lexeme_string(source: &Vec<char>, start: usize, end: usize) -> (s: String)
    requires
        start <= end <= source@.len(),
    ensures
        s@ == source@.subrange(start as int, end as int),
{
    let mut s = String::new();
    let mut i: usize = start;
    proof {
        assert(s@ =~= source@.subrange(start as int, start as int));
    }
    while i < end
        invariant
            start <= i <= end <= source@.len(),
            s@ == source@.subrange(start as int, i as int),
        decreases end - i,
    {
        push_char(&mut s, source[i]);
        i += 1;
        proof {
            assert(source@.subrange(start as int, i as int) =~= source@.subrange(
                start as int,
                i as int - 1,
            ).push(source@[i as int - 1]));
        }
    }
    s
}

/// The scanner: the character buffer for one source text, the cursor and
/// line-counter state of the pass, and the two output sequences it emits
/// into.
pub struct Scanner {
    source: Vec<char>,
    pub tokens: Vec<Token>,
    pub errors: Vec<Error>,
    current_line: u32,
    lexeme_start_idx: usize,
    current_idx: usize,
}

impl Scanner {
    /// Well-formedness across one pass: the cursor stays inside the buffer,
    /// the line counter is one more than the newlines behind the cursor, and
    /// the buffer is short enough that every line number fits in `u32`.
    pub closed spec fn wf(self) -> bool {
        &&& self.current_idx <= self.source@.len()
        &&& self.current_line as int == 1 + newline_count(self.source@, self.current_idx as int)
        &&& self.source@.len() < u32::MAX
    }

    /// A scanner that has not started a pass: cursor at the start, line
    /// counter 1, nothing emitted yet.
    pub closed spec fn is_fresh(self) -> bool {
        &&& self.tokens@.len() == 0
        &&& self.errors@.len() == 0
        &&& self.current_idx == 0
        &&& self.current_line == 1
    }

    /// What the rest of the pass will emit from the current state.
    pub closed spec fn rest(self) -> ScanOutput {
        scan_from(self.source@, self.current_idx as int, self.current_line as int)
    }

    /// The tokens emitted so far, as their views.
    pub closed spec fn emitted_tokens(self) -> Seq<SpecToken> {
        tokens_view(self.tokens@)
    }

    /// The errors emitted so far, as their views.
    pub closed spec fn emitted_errors(self) -> Seq<SpecError> {
        errors_view(self.errors@)
    }

    pub fn new() -> (s: Scanner)
        ensures
            s.is_fresh(),
            s.wf(),
    {
        Scanner {
            source: Vec::new(),
            tokens: Vec::new(),
            errors: Vec::new(),
            current_line: 1,
            lexeme_start_idx: 0,
            current_idx: 0,
        }
    }

    /// Runs the whole pass over `source`: afterwards the emitted sequences
    /// are exactly what the scan model describes for this text.
    pub fn scan_tokens(&mut self, source: String)
        requires
            old(self).is_fresh(),
            source@.len() < u32::MAX,
        ensures
            final(self).wf(),
            final(self).emitted_tokens() == scan(source@).tokens,
            final(self).emitted_errors() == scan(source@).errors,
    {
        let ghost src = source@;
        self.source = source_chars(source.as_str());

        proof {
            assert(tokens_view(self.tokens@) =~= Seq::<SpecToken>::empty());
            assert(errors_view(self.errors@) =~= Seq::<SpecError>::empty());
            assert(Seq::<SpecToken>::empty() + self.rest().tokens =~= self.rest().tokens);
            assert(Seq::<SpecError>::empty() + self.rest().errors =~= self.rest().errors);
        }
        while !self.exhausted_chars()
            invariant
                self.wf(),
                self.source@ == src,
                tokens_view(self.tokens@) + self.rest().tokens == scan(src).tokens,
                errors_view(self.errors@) + self.rest().errors == scan(src).errors,
            decreases src.len() - self.current_idx,
        {
            self.lexeme_start_idx = self.current_idx;
            self.scan_single_token();
        }

        let eof_tok = Token::eof(self.current_line);
        proof {
            lemma_tokens_view_push(self.tokens@, eof_tok);
        }
        self.tokens.push(eof_tok);
        proof {
            assert(tokens_view(self.tokens@) =~= scan(src).tokens);
            assert(errors_view(self.errors@) =~= scan(src).errors);
        }
    }

    fn scan_single_token(&mut self)
        requires
            old(self).wf(),
            old(self).current_idx < old(self).source@.len(),
            old(self).lexeme_start_idx == old(self).current_idx,
        ensures
            final(self).wf(),
            final(self).source@ == old(self).source@,
            old(self).current_idx < final(self).current_idx <= final(self).source@.len(),
            tokens_view(final(self).tokens@) + final(self).rest().tokens == tokens_view(
                old(self).tokens@,
            ) + old(self).rest().tokens,
            errors_view(final(self).errors@) + final(self).rest().errors == errors_view(
                old(self).errors@,
            ) + old(self).rest().errors,
    {
        let ghost src = old(self).source@;
        let ghost start = old(self).current_idx as int;
        let ghost line0 = old(self).current_line as int;
        let ghost toks0 = old(self).tokens@;
        let ghost errs0 = old(self).errors@;
        let ghost lsi0 = old(self).lexeme_start_idx;
        let ghost line0u = old(self).current_line;

        let token = self.advance();

        // normal tokens
        if let Some(token_type) = match token {
            '(' => Some(TokenType::LeftParen),
            ')' => Some(TokenType::RightParen),
            '{' => Some(TokenType::LeftBrace),
            '}' => Some(TokenType::RightBrace),
            ',' => Some(TokenType::Comma),
            '.' => Some(TokenType::Dot),
            '-' => Some(TokenType::Minus),
            '+' => Some(TokenType::Plus),
            ';' => Some(TokenType::Semicolon),
            '*' => Some(TokenType::Star),
            '!' => {
                if self.match_advance('=') {
                    Some(TokenType::BangEqual)
                } else {
                    Some(TokenType::Bang)
                }
            },
            '=' => {
                if self.match_advance('=') {
                    Some(TokenType::EqualEqual)
                } else {
                    Some(TokenType::Equal)
                }
            },
            '<' => {
                if self.match_advance('=') {
                    Some(TokenType::LessEqual)
                } else {
                    Some(TokenType::Less)
                }
            },
            '>' => {
                if self.match_advance('=') {
                    Some(TokenType::GreaterEqual)
                } else {
                    Some(TokenType::Greater)
                }
            },
            '/' => {
                if self.match_advance('/') {
                    // Commented line
                    while self.peek() != '\n' && !self.exhausted_chars()
                        invariant
                            self.source@ == src,
                            self.tokens@ == toks0,
                            self.errors@ == errs0,
                            self.current_line == line0u,
                            self.lexeme_start_idx == lsi0,
                            start + 2 <= self.current_idx <= src.len(),
                            newline_count(src, self.current_idx as int) == newline_count(
                                src,
                                start + 2,
                            ),
                            scan_comment(src, self.current_idx as int, line0) == scan_comment(
                                src,
                                start + 2,
                                line0,
                            ),
                        decreases src.len() - self.current_idx,
                    {
                        self.advance();
                    }
                    None
                } else {
                    Some(TokenType::Slash)
                }
            },
            _ => None,
        } {
            let lexeme = lexeme_string(&self.source, self.lexeme_start_idx, self.current_idx);
            let new_token = Token { token_type, lexeme, literal: None, line: self.current_line };
            let ghost emitted = new_token@;
            self.tokens.push(new_token);
            proof {
                let idx = self.current_idx as int;
                assert(newline_count(src, start + 1) == newline_count(src, start));
                if idx == start + 2 {
                    assert(newline_count(src, start + 2) == newline_count(src, start + 1));
                }
                lemma_tokens_view_push(toks0, self.tokens@.last());
                lemma_push_concat(tokens_view(toks0), emitted, scan_from(src, idx, line0).tokens);
                assert(scan_from(src, start, line0) == with_token(
                    emitted,
                    scan_from(src, idx, line0),
                ));
            }
        } else {
            // whitespace tokens
            match token {
                ' ' => (),
                '\r' => (),
                '\t' => (),
                '\n' => {
                    proof {
                        lemma_newline_count_bounds(src, start);
                    }
                    self.current_line = self.current_line + 1;
                },
                // treat comments like whitespace
                '/' => (),
                _ => {
                    let scan_error = Error {
                        message: "Unexpected character".to_owned(),
                        line: self.current_line,
                    };
                    let ghost recorded = scan_error@;
                    self.errors.push(scan_error);
                    proof {
                        lemma_errors_view_push(errs0, self.errors@.last());
                        lemma_push_concat(
                            errors_view(errs0),
                            recorded,
                            scan_from(src, start + 1, line0).errors,
                        );
                        assert(recorded == unexpected_char_error(line0));
                        assert(scan_from(src, start, line0) == with_error(
                            recorded,
                            scan_from(src, start + 1, line0),
                        ));
                    }
                },
            }
            proof {
                let idx = self.current_idx as int;
                if token == '\n' {
                    assert(newline_count(src, start + 1) == newline_count(src, start) + 1);
                } else if token == '/' {
                    // end of a line comment: the model re-joins the main scan
                    assert(newline_count(src, start + 1) == newline_count(src, start));
                    assert(newline_count(src, start + 2) == newline_count(src, start + 1));
                    assert(scan_comment(src, idx, line0) == scan_from(src, idx, line0));
                } else {
                    assert(newline_count(src, start + 1) == newline_count(src, start));
                }
            }
        }
    }

    fn peek(&self) -> (c: char)
        ensures
            c == (if self.current_idx < self.source@.len() {
                self.source@[self.current_idx as int]
            } else {
                '\0'
            }),
    {
        if self.exhausted_chars() {
            '\0'
        } else {
            self.source[self.current_idx]
        }
    }

    fn advance(&mut self) -> (c: char)
        ensures
            final(self).source@ == old(self).source@,
            final(self).tokens@ == old(self).tokens@,
            final(self).errors@ == old(self).errors@,
            final(self).current_line == old(self).current_line,
            final(self).lexeme_start_idx == old(self).lexeme_start_idx,
            old(self).current_idx < old(self).source@.len() ==> final(self).current_idx == old(
                self,
            ).current_idx + 1,
            old(self).current_idx < old(self).source@.len() ==> c == old(self).source@[old(
                self,
            ).current_idx as int],
            old(self).current_idx >= old(self).source@.len() ==> final(self).current_idx == old(
                self,
            ).current_idx,
            old(self).current_idx >= old(self).source@.len() ==> c == '\0',
    {
        if self.exhausted_chars() {
            '\0'
        } else {
            self.current_idx += 1;
            self.source[self.current_idx - 1]
        }
    }

    fn match_advance(&mut self, expected_next: char) -> (matched: bool)
        ensures
            final(self).source@ == old(self).source@,
            final(self).tokens@ == old(self).tokens@,
            final(self).errors@ == old(self).errors@,
            final(self).current_line == old(self).current_line,
            final(self).lexeme_start_idx == old(self).lexeme_start_idx,
            matched == (old(self).current_idx < old(self).source@.len() && old(self).source@[old(
                self,
            ).current_idx as int] == expected_next),
            matched ==> final(self).current_idx == old(self).current_idx + 1,
            !matched ==> final(self).current_idx == old(self).current_idx,
    {
        if self.exhausted_chars() || self.source[self.current_idx] != expected_next {
            false
        } else {
            self.current_idx += 1;
            true
        }
    }

    fn exhausted_chars(&self) -> (r: bool)
        ensures
            r == (self.current_idx >= self.source@.len()),
            self.source@.len() <= usize::MAX,
    {
        self.current_idx >= self.source.len()
    }

    /// Whether the pass recorded any scan failure.
    pub fn has_errors(&self) -> (r: bool)
        ensures
            r == (self.emitted_errors().len() > 0),
    {
        self.errors.len() > 0
    }
}

/// Runs one scanner to completion over `source`: the token sequence when
/// the text scans cleanly, the accumulated errors otherwise — exactly one
/// of the two, as the scan model decides.
pub fn get_tokens(source: String) -> (r: Result<Vec<Token>, Vec<Error>>)
    requires
        source@.len() < u32::MAX,
    ensures
        (match r {
            Ok(tokens) => scan(source@).errors.len() == 0 && tokens_view(tokens@) == scan(
                source@,
            ).tokens,
            Err(errors) => scan(source@).errors.len() > 0 && errors_view(errors@) == scan(
                source@,
            ).errors,
        }),
{
    let mut scanner = Scanner::new();

    scanner.scan_tokens(source);

    if scanner.has_errors() {
        Err(scanner.errors)
    } else {
        Ok(scanner.tokens)
    }
}

} // verus!
