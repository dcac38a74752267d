//! The mathematical scanner.
//!
//! `spec_scan` defines, over the character sequence of the source, the exact
//! token sequence (or the first lexical error) that scanning produces.  The
//! executable `Lexer` is proved to return precisely this result.

use vstd::prelude::*;

use crate::token::{LexErrorKind, SpecLexError, SpecToken, SpecTokenKind};

verus! {

/// An ASCII decimal digit.
pub open spec fn is_digit(c: char) -> bool {
    '0' <= c && c <= '9'
}

/// An ASCII alphanumeric character.
pub open spec fn is_alnum(c: char) -> bool {
    is_digit(c) || ('a' <= c && c <= 'z') || ('A' <= c && c <= 'Z')
}

/// A structural / punctuation character with a token of its own.
pub open spec fn is_structural(c: char) -> bool {
    c == '(' || c == ')' || c == '{' || c == '}' || c == '[' || c == ']' || c == ':' || c == ';'
        || c == ','
}

/// A single-character operator.
pub open spec fn is_operator(c: char) -> bool {
    c == '+' || c == '-' || c == '*' || c == '/' || c == '%' || c == '^' || c == '='
}

/// The token kind of a structural character.
pub open spec fn structural_kind(c: char) -> SpecTokenKind {
    if c == '(' {
        SpecTokenKind::LParen
    } else if c == ')' {
        SpecTokenKind::RParen
    } else if c == '{' {
        SpecTokenKind::LBrace
    } else if c == '}' {
        SpecTokenKind::RBrace
    } else if c == '[' {
        SpecTokenKind::LBracket
    } else if c == ']' {
        SpecTokenKind::RBracket
    } else if c == ':' {
        SpecTokenKind::Colon
    } else if c == ';' {
        SpecTokenKind::Semicolon
    } else {
        SpecTokenKind::Comma
    }
}

/// The token kind of an operator character.
pub open spec fn operator_kind(c: char) -> SpecTokenKind {
    SpecTokenKind::Operator(c)
}

/// The characters of the reserved keyword.
pub open spec fn def_seq() -> Seq<char> {
    seq!['d', 'e', 'f']
}

/// The numeric value of one decimal digit.
pub open spec fn digit_val(c: char) -> int {
    c as u32 - '0' as u32
}

/// The numeric value of a sequence of decimal digits, most significant first.
pub open spec fn digits_val(s: Seq<char>) -> int
    decreases s.len(),
{
    if s.len() == 0 {
        0
    } else {
        digits_val(s.drop_last()) * 10 + digit_val(s.last())
    }
}

/// Every character of the sequence is a decimal digit.
pub open spec fn all_digits(s: Seq<char>) -> bool {
    forall|i: int| 0 <= i < s.len() ==> is_digit(#[trigger] s[i])
}

/// The raw text of a numeric lexeme parses as an unsigned 32-bit integer:
/// it holds no decimal point and its value fits.
pub open spec fn int_fits(s: Seq<char>) -> bool {
    all_digits(s) && digits_val(s) <= u32::MAX
}

/// The token kind of a numeric lexeme with the given raw text.
pub open spec fn num_kind(raw: Seq<char>) -> SpecTokenKind {
    if int_fits(raw) {
        SpecTokenKind::Int(digits_val(raw) as u32)
    } else {
        SpecTokenKind::Float(raw)
    }
}

/// The token kind of an identifier lexeme with the given raw text.
pub open spec fn ident_kind(raw: Seq<char>) -> SpecTokenKind {
    if raw == def_seq() {
        SpecTokenKind::Def
    } else {
        SpecTokenKind::Ident(raw)
    }
}

/// The first position at or after `i` that ends the body of a string
/// literal: the position of the closing quote, of an illegal raw newline,
/// or the end of the input.
pub open spec fn string_body_end(text: Seq<char>, i: int) -> int
    decreases text.len() - i,
{
    if 0 <= i < text.len() && text[i] != '"' && text[i] != '\n' {
        string_body_end(text, i + 1)
    } else {
        i
    }
}

/// The position just past a comment whose body starts at `i`: just past the
/// next newline, or the end of the input.
pub open spec fn comment_end(text: Seq<char>, i: int) -> int
    decreases text.len() - i,
{
    if 0 <= i < text.len() && text[i] != '\n' {
        comment_end(text, i + 1)
    } else if 0 <= i < text.len() {
        i + 1
    } else {
        i
    }
}

/// The first position at or after `i` that does not continue a numeric
/// lexeme (a digit or a decimal point).
pub open spec fn num_end(text: Seq<char>, i: int) -> int
    decreases text.len() - i,
{
    if 0 <= i < text.len() && (is_digit(text[i]) || text[i] == '.') {
        num_end(text, i + 1)
    } else {
        i
    }
}

/// The first position at or after `i` that does not continue an identifier
/// (an ASCII alphanumeric character).
pub open spec fn ident_end(text: Seq<char>, i: int) -> int
    decreases text.len() - i,
{
    if 0 <= i < text.len() && is_alnum(text[i]) {
        ident_end(text, i + 1)
    } else {
        i
    }
}

pub proof fn lemma_string_body_end(text: Seq<char>, i: int)
    requires
        0 <= i <= text.len(),
    ensures
        i <= string_body_end(text, i) <= text.len(),
    decreases text.len() - i,
{
    if i < text.len() && text[i] != '"' && text[i] != '\n' {
        lemma_string_body_end(text, i + 1);
    }
}

pub proof fn lemma_comment_end(text: Seq<char>, i: int)
    requires
        0 <= i <= text.len(),
    ensures
        i <= comment_end(text, i) <= text.len(),
    decreases text.len() - i,
{
    if i < text.len() && text[i] != '\n' {
        lemma_comment_end(text, i + 1);
    }
}

pub proof fn lemma_num_end(text: Seq<char>, i: int)
    requires
        0 <= i <= text.len(),
    ensures
        i <= num_end(text, i) <= text.len(),
    decreases text.len() - i,
{
    if i < text.len() && (is_digit(text[i]) || text[i] == '.') {
        lemma_num_end(text, i + 1);
    }
}

pub proof fn lemma_ident_end(text: Seq<char>, i: int)
    requires
        0 <= i <= text.len(),
    ensures
        i <= ident_end(text, i) <= text.len(),
    decreases text.len() - i,
{
    if i < text.len() && is_alnum(text[i]) {
        lemma_ident_end(text, i + 1);
    }
}

/// Prepends already-emitted tokens to the outcome of scanning the rest of
/// the input.
pub open spec fn with_tokens(
    ts: Seq<SpecToken>,
    rest: Result<Seq<SpecToken>, SpecLexError>,
) -> Result<Seq<SpecToken>, SpecLexError> {
    match rest {
        Ok(more) => Ok(ts + more),
        Err(e) => Err(e),
    }
}

pub proof fn lemma_with_tokens_empty(r: Result<Seq<SpecToken>, SpecLexError>)
    ensures
        with_tokens(Seq::<SpecToken>::empty(), r) == r,
{
    match r {
        Ok(ts) => {
            assert(Seq::<SpecToken>::empty() + ts =~= ts);
        },
        Err(_) => {
        },
    }
}

pub proof fn lemma_with_tokens_assoc(
    a: Seq<SpecToken>,
    b: Seq<SpecToken>,
    r: Result<Seq<SpecToken>, SpecLexError>,
)
    ensures
        with_tokens(a, with_tokens(b, r)) == with_tokens(a + b, r),
{
    match r {
        Ok(ts) => {
            assert(a + (b + ts) =~= (a + b) + ts);
        },
        Err(_) => {
        },
    }
}

/// Emitting one token and then the rest equals emitting it onto the
/// accumulated sequence.
pub proof fn lemma_emit_one(
    vs: Seq<SpecToken>,
    t: SpecToken,
    rest: Result<Seq<SpecToken>, SpecLexError>,
)
    ensures
        with_tokens(vs, with_tokens(seq![t], rest)) == with_tokens(vs.push(t), rest),
{
    lemma_with_tokens_assoc(vs, seq![t], rest);
    assert(vs + seq![t] =~= vs.push(t));
}

/// The result of scanning `text` from position `pos` on line `line`: the
/// remaining token sequence, or the first lexical error.
///
/// One unfolding handles one lexeme, mirroring the dispatch of the scanner:
/// structural characters and operators become single tokens; `"` opens a
/// string literal whose body must reach a closing quote on the same line;
/// `#` opens a comment running through the end of the line, which advances
/// the line counter; a newline advances the line counter; a digit opens a
/// numeric lexeme; any other alphanumeric character opens an identifier;
/// everything else is ignored.
pub open spec fn spec_scan(text: Seq<char>, pos: int, line: nat) -> Result<
    Seq<SpecToken>,
    SpecLexError,
>
    decreases text.len() - pos,
    via spec_scan_dec
{
    if !(0 <= pos < text.len()) {
        Ok(Seq::empty())
    } else {
        let c = text[pos];
        if is_structural(c) {
            with_tokens(
                seq![SpecToken { kind: structural_kind(c), line }],
                spec_scan(text, pos + 1, line),
            )
        } else if is_operator(c) {
            with_tokens(
                seq![SpecToken { kind: SpecTokenKind::Operator(c), line }],
                spec_scan(text, pos + 1, line),
            )
        } else if c == '"' {
            let j = string_body_end(text, pos + 1);
            if j >= text.len() {
                Err(SpecLexError { kind: LexErrorKind::UnterminatedString, line })
            } else if text[j] == '\n' {
                Err(SpecLexError { kind: LexErrorKind::IllegalNewlineInString, line })
            } else {
                with_tokens(
                    seq![SpecToken { kind: SpecTokenKind::Str(text.subrange(pos + 1, j)), line }],
                    spec_scan(text, j + 1, line),
                )
            }
        } else if c == '#' {
            spec_scan(text, comment_end(text, pos + 1), line + 1)
        } else if c == '\n' {
            spec_scan(text, pos + 1, line + 1)
        } else if is_digit(c) {
            let j = num_end(text, pos + 1);
            with_tokens(
                seq![SpecToken { kind: num_kind(text.subrange(pos, j)), line }],
                spec_scan(text, j, line),
            )
        } else if is_alnum(c) {
            let j = ident_end(text, pos + 1);
            with_tokens(
                seq![SpecToken { kind: ident_kind(text.subrange(pos, j)), line }],
                spec_scan(text, j, line),
            )
        } else {
            spec_scan(text, pos + 1, line)
        }
    }
}

#[via_fn]
proof fn spec_scan_dec(text: Seq<char>, pos: int, line: nat) {
    if 0 <= pos < text.len() {
        lemma_string_body_end(text, pos + 1);
        lemma_comment_end(text, pos + 1);
        lemma_num_end(text, pos + 1);
        lemma_ident_end(text, pos + 1);
    }
}

} // verus!
