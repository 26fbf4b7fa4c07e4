//! Laws of the scan model: properties that hold of every scan, proved once
//! over the recursive model in [`crate::model`]. The executable scanner's
//! contract says its output *is* the model's output, so each law carries
//! over to every run of [`crate::lexer::Scanner`].

use vstd::prelude::*;

use crate::lexer::TokenType;
use crate::model::{
    is_blank, is_operator_start, is_unexpected, newline_count, scan, scan_comment, scan_from,
    single_char_kind, unexpected_char_error, SpecToken,
};

verus! {

/// The token's lexeme is the non-empty slice of the source starting at
/// offset `s`, and its line is 1 plus the newlines strictly before `s`.
pub open spec fn token_at_position(src: Seq<char>, t: SpecToken, s: int) -> bool {
    &&& 0 <= s
    &&& 1 <= t.lexeme.len()
    &&& s + t.lexeme.len() <= src.len()
    &&& t.lexeme == src.subrange(s, s + t.lexeme.len() as int)
    &&& t.line == 1 + newline_count(src, s)
}

/// The token sits at some source offset at or behind `lo`.
pub open spec fn has_position(src: Seq<char>, lo: int, t: SpecToken) -> bool {
    exists|s: int| lo <= s && token_at_position(src, t, s)
}

proof fn lemma_has_position_widen(src: Seq<char>, lo1: int, lo2: int, t: SpecToken)
    requires
        lo1 <= lo2,
        has_position(src, lo2, t),
    ensures
        has_position(src, lo1, t),
{
    let s = choose|s: int| lo2 <= s && token_at_position(src, t, s);
    assert(lo1 <= s && token_at_position(src, t, s));
}

proof fn lemma_scan_from_terminated_at(src: Seq<char>, i: int, line: int)
    ensures
        ({
            let out = scan_from(src, i, line);
            &&& out.tokens.len() >= 1
            &&& out.tokens.last().kind == TokenType::Eof
            &&& out.tokens.last().lexeme == Seq::<char>::empty()
            &&& out.tokens.last().literal is None
            &&& forall|k: int|
                0 <= k < out.tokens.len() - 1 ==> (#[trigger] out.tokens[k]).kind
                    != TokenType::Eof
        }),
    decreases src.len() - i, 1int,
{
    if i < 0 || i >= src.len() {
    } else {
        let c = src[i];
        if single_char_kind(c) is Some {
            lemma_scan_from_terminated_at(src, i + 1, line);
        } else if is_operator_start(c) {
            if i + 1 < src.len() && src[i + 1] == '=' {
                lemma_scan_from_terminated_at(src, i + 2, line);
            } else {
                lemma_scan_from_terminated_at(src, i + 1, line);
            }
        } else if c == '/' {
            if i + 1 < src.len() && src[i + 1] == '/' {
                lemma_scan_comment_terminated_at(src, i + 2, line);
            } else {
                lemma_scan_from_terminated_at(src, i + 1, line);
            }
        } else if is_blank(c) {
            lemma_scan_from_terminated_at(src, i + 1, line);
        } else if c == '\n' {
            lemma_scan_from_terminated_at(src, i + 1, line + 1);
        } else {
            lemma_scan_from_terminated_at(src, i + 1, line);
        }
    }
}

proof fn lemma_scan_comment_terminated_at(src: Seq<char>, i: int, line: int)
    ensures
        ({
            let out = scan_comment(src, i, line);
            &&& out.tokens.len() >= 1
            &&& out.tokens.last().kind == TokenType::Eof
            &&& out.tokens.last().lexeme == Seq::<char>::empty()
            &&& out.tokens.last().literal is None
            &&& forall|k: int|
                0 <= k < out.tokens.len() - 1 ==> (#[trigger] out.tokens[k]).kind
                    != TokenType::Eof
        }),
    decreases src.len() - i, 0int,
{
    if i < 0 || i >= src.len() {
    } else if src[i] == '\n' {
        lemma_scan_from_terminated_at(src, i + 1, line + 1);
    } else {
        lemma_scan_comment_terminated_at(src, i + 1, line);
    }
}

proof fn lemma_scan_from_positions_at(src: Seq<char>, i: int, line: int)
    requires
        0 <= i <= src.len(),
        line == 1 + newline_count(src, i),
    ensures
        ({
            let out = scan_from(src, i, line);
            &&& forall|k: int|
                0 <= k < out.tokens.len() - 1 ==> #[trigger] has_position(src, i, out.tokens[k])
            &&& out.tokens.last().line == 1 + newline_count(src, src.len() as int)
        }),
    decreases src.len() - i, 1int,
{
    if i >= src.len() {
        assert(i == src.len());
    } else {
        let c = src[i];
        let out = scan_from(src, i, line);
        assert(newline_count(src, i + 1) == newline_count(src, i) + (if c == '\n' {
            1int
        } else {
            0int
        }));
        if single_char_kind(c) is Some || (is_operator_start(c) && !(i + 1 < src.len() && src[i
            + 1] == '=')) || (c == '/' && !(i + 1 < src.len() && src[i + 1] == '/')) {
            // a one-character token at offset i
            lemma_scan_from_positions_at(src, i + 1, line);
            lemma_scan_from_terminated_at(src, i + 1, line);
            let rest = scan_from(src, i + 1, line);
            assert(out.tokens.last() == rest.tokens.last());
            assert forall|k: int| 0 <= k < out.tokens.len() - 1 implies #[trigger] has_position(
                src,
                i,
                out.tokens[k],
            ) by {
                if k == 0 {
                    assert(out.tokens[0].lexeme == src.subrange(i, i + 1));
                    assert(i <= i && token_at_position(src, out.tokens[0], i));
                } else {
                    assert(out.tokens[k] == rest.tokens[k - 1]);
                    lemma_has_position_widen(src, i, i + 1, out.tokens[k]);
                }
            }
        } else if is_operator_start(c) {
            // a two-character operator at offset i
            assert(newline_count(src, i + 2) == newline_count(src, i + 1));
            lemma_scan_from_positions_at(src, i + 2, line);
            lemma_scan_from_terminated_at(src, i + 2, line);
            let rest = scan_from(src, i + 2, line);
            assert(out.tokens.last() == rest.tokens.last());
            assert forall|k: int| 0 <= k < out.tokens.len() - 1 implies #[trigger] has_position(
                src,
                i,
                out.tokens[k],
            ) by {
                if k == 0 {
                    assert(out.tokens[0].lexeme == src.subrange(i, i + 2));
                    assert(i <= i && token_at_position(src, out.tokens[0], i));
                } else {
                    assert(out.tokens[k] == rest.tokens[k - 1]);
                    lemma_has_position_widen(src, i, i + 2, out.tokens[k]);
                }
            }
        } else if c == '/' {
            // a line comment from offset i + 2
            assert(newline_count(src, i + 2) == newline_count(src, i + 1));
            lemma_scan_comment_positions_at(src, i + 2, line);
            let rest = scan_comment(src, i + 2, line);
            assert forall|k: int| 0 <= k < out.tokens.len() - 1 implies #[trigger] has_position(
                src,
                i,
                out.tokens[k],
            ) by {
                assert(has_position(src, i + 2, rest.tokens[k]));
                lemma_has_position_widen(src, i, i + 2, out.tokens[k]);
            }
        } else {
            // blank, newline or unexpected: no token at offset i
            let next_line: int = if c == '\n' {
                line + 1
            } else {
                line
            };
            lemma_scan_from_positions_at(src, i + 1, next_line);
            let rest = scan_from(src, i + 1, next_line);
            assert forall|k: int| 0 <= k < out.tokens.len() - 1 implies #[trigger] has_position(
                src,
                i,
                out.tokens[k],
            ) by {
                assert(has_position(src, i + 1, rest.tokens[k]));
                lemma_has_position_widen(src, i, i + 1, out.tokens[k]);
            }
        }
    }
}

proof fn lemma_scan_comment_positions_at(src: Seq<char>, i: int, line: int)
    requires
        0 <= i <= src.len(),
        line == 1 + newline_count(src, i),
    ensures
        ({
            let out = scan_comment(src, i, line);
            &&& forall|k: int|
                0 <= k < out.tokens.len() - 1 ==> #[trigger] has_position(src, i, out.tokens[k])
            &&& out.tokens.last().line == 1 + newline_count(src, src.len() as int)
        }),
    decreases src.len() - i, 0int,
{
    if i >= src.len() {
        assert(i == src.len());
    } else {
        let out = scan_comment(src, i, line);
        assert(newline_count(src, i + 1) == newline_count(src, i) + (if src[i] == '\n' {
            1int
        } else {
            0int
        }));
        if src[i] == '\n' {
            lemma_scan_from_positions_at(src, i + 1, line + 1);
            let rest = scan_from(src, i + 1, line + 1);
            assert forall|k: int| 0 <= k < out.tokens.len() - 1 implies #[trigger] has_position(
                src,
                i,
                out.tokens[k],
            ) by {
                assert(has_position(src, i + 1, rest.tokens[k]));
                lemma_has_position_widen(src, i, i + 1, out.tokens[k]);
            }
        } else {
            lemma_scan_comment_positions_at(src, i + 1, line);
            let rest = scan_comment(src, i + 1, line);
            assert forall|k: int| 0 <= k < out.tokens.len() - 1 implies #[trigger] has_position(
                src,
                i,
                out.tokens[k],
            ) by {
                assert(has_position(src, i + 1, rest.tokens[k]));
                lemma_has_position_widen(src, i, i + 1, out.tokens[k]);
            }
        }
    }
}

proof fn lemma_scan_from_monotonic_at(src: Seq<char>, i: int, line: int)
    ensures
        ({
            let out = scan_from(src, i, line);
            &&& forall|k: int|
                0 <= k < out.tokens.len() ==> (#[trigger] out.tokens[k]).line >= line
            &&& forall|k1: int, k2: int|
                #![trigger out.tokens[k1], out.tokens[k2]]
                0 <= k1 <= k2 < out.tokens.len() ==> out.tokens[k1].line <= out.tokens[k2].line
        }),
    decreases src.len() - i, 1int,
{
    if i < 0 || i >= src.len() {
    } else {
        let c = src[i];
        if single_char_kind(c) is Some {
            lemma_scan_from_monotonic_at(src, i + 1, line);
        } else if is_operator_start(c) {
            if i + 1 < src.len() && src[i + 1] == '=' {
                lemma_scan_from_monotonic_at(src, i + 2, line);
            } else {
                lemma_scan_from_monotonic_at(src, i + 1, line);
            }
        } else if c == '/' {
            if i + 1 < src.len() && src[i + 1] == '/' {
                lemma_scan_comment_monotonic_at(src, i + 2, line);
            } else {
                lemma_scan_from_monotonic_at(src, i + 1, line);
            }
        } else if is_blank(c) {
            lemma_scan_from_monotonic_at(src, i + 1, line);
        } else if c == '\n' {
            lemma_scan_from_monotonic_at(src, i + 1, line + 1);
        } else {
            lemma_scan_from_monotonic_at(src, i + 1, line);
        }
    }
}

proof fn lemma_scan_comment_monotonic_at(src: Seq<char>, i: int, line: int)
    ensures
        ({
            let out = scan_comment(src, i, line);
            &&& forall|k: int|
                0 <= k < out.tokens.len() ==> (#[trigger] out.tokens[k]).line >= line
            &&& forall|k1: int, k2: int|
                #![trigger out.tokens[k1], out.tokens[k2]]
                0 <= k1 <= k2 < out.tokens.len() ==> out.tokens[k1].line <= out.tokens[k2].line
        }),
    decreases src.len() - i, 0int,
{
    if i < 0 || i >= src.len() {
    } else if src[i] == '\n' {
        lemma_scan_from_monotonic_at(src, i + 1, line + 1);
    } else {
        lemma_scan_comment_monotonic_at(src, i + 1, line);
    }
}

/// Law: a scan's token sequence is never empty; it ends with the synthetic
/// end-of-input token — empty lexeme, no payload — and no other token is an
/// end-of-input token.
pub proof fn lemma_scan_terminated(src: Seq<char>)
    ensures
        scan(src).tokens.len() >= 1,
        scan(src).tokens.last().kind == TokenType::Eof,
        scan(src).tokens.last().lexeme == Seq::<char>::empty(),
        scan(src).tokens.last().literal is None,
        forall|k: int|
            0 <= k < scan(src).tokens.len() - 1 ==> (#[trigger] scan(src).tokens[k]).kind
                != TokenType::Eof,
{
    lemma_scan_from_terminated_at(src, 0, 1);
}

/// Law: every token before the final end-of-input token sits at some source
/// offset: its lexeme is the contiguous, non-empty slice of the source at
/// that offset, and its line is 1 plus the newlines strictly before that
/// offset. The end-of-input token is stamped with the line that is current
/// when the whole source has been consumed.
pub proof fn lemma_scan_token_provenance(src: Seq<char>)
    ensures
        forall|k: int|
            0 <= k < scan(src).tokens.len() - 1 ==> #[trigger] has_position(
                src,
                0,
                scan(src).tokens[k],
            ),
        scan(src).tokens.last().line == 1 + newline_count(src, src.len() as int),
{
    lemma_scan_from_positions_at(src, 0, 1);
}

/// Law: line numbers never decrease across the token sequence, and every
/// line number is at least 1.
pub proof fn lemma_scan_lines_monotonic(src: Seq<char>)
    ensures
        forall|k: int| 0 <= k < scan(src).tokens.len() ==> (#[trigger] scan(src).tokens[k]).line
            >= 1,
        forall|k1: int, k2: int|
            #![trigger scan(src).tokens[k1], scan(src).tokens[k2]]
            0 <= k1 <= k2 < scan(src).tokens.len() ==> scan(src).tokens[k1].line <= scan(
                src,
            ).tokens[k2].line,
{
    lemma_scan_from_monotonic_at(src, 0, 1);
}

/// Law: an unrecognized character is not fatal. It contributes exactly one
/// unexpected-character error, and the tokens recognized after it are
/// exactly those of the scan that continues behind it.
pub proof fn lemma_scan_error_non_fatal(src: Seq<char>, i: int, line: int)
    requires
        0 <= i < src.len(),
        is_unexpected(src[i]),
    ensures
        scan_from(src, i, line).tokens == scan_from(src, i + 1, line).tokens,
        scan_from(src, i, line).errors == seq![unexpected_char_error(line)] + scan_from(
            src,
            i + 1,
            line,
        ).errors,
{
}

/// Law: scanning is a pure function of the source text — identical sources
/// yield identical token and error sequences.
pub proof fn lemma_scan_deterministic(source_a: Seq<char>, source_b: Seq<char>)
    requires
        source_a == source_b,
    ensures
        scan(source_a) == scan(source_b),
{
}

} // verus!
