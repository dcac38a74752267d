//! General laws of the scanner, stated over the mathematical scanner
//! (`model::spec_scan`) that `Lexer::tokenize` is proved to implement.
//!
//! Each law quantifies over whole classes of inputs; the scenario-sized
//! counterparts live in the test suite.

use vstd::prelude::*;

use crate::model::{
    all_digits, comment_end, digits_val, ident_end, ident_kind, is_alnum, is_digit, is_operator,
    is_structural, lemma_comment_end, num_end, num_kind, operator_kind, spec_scan,
    string_body_end, structural_kind,
};
use crate::token::{LexErrorKind, SpecLexError, SpecToken, SpecTokenKind};

verus! {

/// A whitespace character that scanning ignores (a newline only advances
/// the line counter).
pub open spec fn is_blank_char(c: char) -> bool {
    c == ' ' || c == '\t' || c == '\r' || c == '\n'
}

/// The text from `pos` on holds only whitespace and comments.
pub open spec fn blank_from(text: Seq<char>, pos: int) -> bool
    decreases text.len() - pos,
    via blank_from_dec
{
    if !(0 <= pos < text.len()) {
        true
    } else if is_blank_char(text[pos]) {
        blank_from(text, pos + 1)
    } else if text[pos] == '#' {
        blank_from(text, comment_end(text, pos + 1))
    } else {
        false
    }
}

#[via_fn]
proof fn blank_from_dec(text: Seq<char>, pos: int) {
    if 0 <= pos < text.len() {
        lemma_comment_end(text, pos + 1);
    }
}

proof fn lemma_blank_scans_empty(text: Seq<char>, pos: int, line: nat)
    requires
        0 <= pos,
        blank_from(text, pos),
    ensures
        spec_scan(text, pos, line) == Ok::<Seq<SpecToken>, SpecLexError>(Seq::empty()),
    decreases text.len() - pos,
{
    if pos < text.len() {
        let c = text[pos];
        if c == '\n' {
            lemma_blank_scans_empty(text, pos + 1, line + 1);
        } else if is_blank_char(c) {
            lemma_blank_scans_empty(text, pos + 1, line);
        } else {
            lemma_comment_end(text, pos + 1);
            lemma_blank_scans_empty(text, comment_end(text, pos + 1), line + 1);
        }
    }
}

/// Input that holds only whitespace and comments scans to no tokens at all.
pub proof fn lemma_blank_input_scans_empty(text: Seq<char>)
    requires
        blank_from(text, 0),
    ensures
        spec_scan(text, 0, 1) == Ok::<Seq<SpecToken>, SpecLexError>(Seq::empty()),
{
    lemma_blank_scans_empty(text, 0, 1);
}

/// Input that holds only structural characters scans to exactly one
/// matching payload-free token per character, in the order they appear.
pub proof fn lemma_structural_run(text: Seq<char>, pos: int, line: nat)
    requires
        0 <= pos <= text.len(),
        forall|i: int| pos <= i < text.len() ==> is_structural(#[trigger] text[i]),
    ensures
        spec_scan(text, pos, line) == Ok::<Seq<SpecToken>, SpecLexError>(
            Seq::new(
                (text.len() - pos) as nat,
                |k: int| (SpecToken { kind: structural_kind(text[pos + k]), line }),
            ),
        ),
    decreases text.len() - pos,
{
    let expected = Seq::new(
        (text.len() - pos) as nat,
        |k: int| (SpecToken { kind: structural_kind(text[pos + k]), line }),
    );
    if pos == text.len() {
        assert(expected =~= Seq::<SpecToken>::empty());
    } else {
        lemma_structural_run(text, pos + 1, line);
        let tok = SpecToken { kind: structural_kind(text[pos]), line };
        let tail = Seq::new(
            (text.len() - pos - 1) as nat,
            |k: int| (SpecToken { kind: structural_kind(text[pos + 1 + k]), line }),
        );
        assert(seq![tok] + tail =~= expected);
    }
}

/// Input that holds only operator characters scans to exactly one
/// `Operator` token per character, carrying that character, in order.
pub proof fn lemma_operator_run(text: Seq<char>, pos: int, line: nat)
    requires
        0 <= pos <= text.len(),
        forall|i: int| pos <= i < text.len() ==> is_operator(#[trigger] text[i]),
    ensures
        spec_scan(text, pos, line) == Ok::<Seq<SpecToken>, SpecLexError>(
            Seq::new(
                (text.len() - pos) as nat,
                |k: int| (SpecToken { kind: operator_kind(text[pos + k]), line }),
            ),
        ),
    decreases text.len() - pos,
{
    let expected = Seq::new(
        (text.len() - pos) as nat,
        |k: int| (SpecToken { kind: operator_kind(text[pos + k]), line }),
    );
    if pos == text.len() {
        assert(expected =~= Seq::<SpecToken>::empty());
    } else {
        lemma_operator_run(text, pos + 1, line);
        let tok = SpecToken { kind: operator_kind(text[pos]), line };
        let tail = Seq::new(
            (text.len() - pos - 1) as nat,
            |k: int| (SpecToken { kind: operator_kind(text[pos + 1 + k]), line }),
        );
        assert(seq![tok] + tail =~= expected);
    }
}

/// The body of a string literal opened at `i` runs exactly to `j`, the
/// first quote, newline, or end of input at or after `i`; with
/// `parse_string`'s contract this fixes the emitted body and the cursor
/// for every well-formed literal, wherever it stands in the text.
pub proof fn lemma_string_body_end_at(text: Seq<char>, i: int, j: int)
    requires
        0 <= i <= j <= text.len(),
        forall|k: int| i <= k < j ==> text[k] != '"' && #[trigger] text[k] != '\n',
        j < text.len() ==> text[j] == '"' || text[j] == '\n',
    ensures
        string_body_end(text, i) == j,
    decreases j - i,
{
    if i < j {
        lemma_string_body_end_at(text, i + 1, j);
    }
}

/// Round trip: a quoted body with no quote and no raw newline scans to
/// exactly one `Str` token carrying the body verbatim.
pub proof fn lemma_string_round_trip(body: Seq<char>, line: nat)
    requires
        forall|i: int| 0 <= i < body.len() ==> body[i] != '"' && #[trigger] body[i] != '\n',
    ensures
        spec_scan(seq!['"'] + body + seq!['"'], 0, line) == Ok::<Seq<SpecToken>, SpecLexError>(
            seq![(SpecToken { kind: SpecTokenKind::Str(body), line })],
        ),
{
    let text = seq!['"'] + body + seq!['"'];
    let j = 1 + body.len() as int;
    assert(text[0] == '"');
    assert(text[j] == '"');
    assert forall|k: int| 1 <= k < j implies text[k] != '"' && #[trigger] text[k] != '\n' by {
        assert(text[k] == body[k - 1]);
    }
    lemma_string_body_end_at(text, 1, j);
    assert(text.subrange(1, j) =~= body);
    let tok = SpecToken { kind: SpecTokenKind::Str(body), line };
    assert(spec_scan(text, j + 1, line) == Ok::<Seq<SpecToken>, SpecLexError>(Seq::empty()));
    assert(seq![tok] + Seq::<SpecToken>::empty() =~= seq![tok]);
}

/// A string literal whose closing quote is missing always fails with
/// `UnterminatedString`, at the line of the opening quote.
pub proof fn lemma_unterminated_string(body: Seq<char>, line: nat)
    requires
        forall|i: int| 0 <= i < body.len() ==> body[i] != '"' && #[trigger] body[i] != '\n',
    ensures
        spec_scan(seq!['"'] + body, 0, line) == Err::<Seq<SpecToken>, SpecLexError>(
            (SpecLexError { kind: LexErrorKind::UnterminatedString, line }),
        ),
{
    let text = seq!['"'] + body;
    assert(text[0] == '"');
    assert forall|k: int| 1 <= k < text.len() implies text[k] != '"' && #[trigger] text[k] != '\n' by {
        assert(text[k] == body[k - 1]);
    }
    lemma_string_body_end_at(text, 1, text.len() as int);
}

/// A string literal holding a raw newline before any closing quote always
/// fails with `IllegalNewlineInString`, whatever follows, at the line of
/// the opening quote.
pub proof fn lemma_newline_in_string(body: Seq<char>, k: int, rest: Seq<char>, line: nat)
    requires
        0 <= k < body.len(),
        body[k] == '\n',
        forall|i: int| 0 <= i < k ==> body[i] != '"' && #[trigger] body[i] != '\n',
    ensures
        spec_scan(seq!['"'] + body + rest, 0, line) == Err::<Seq<SpecToken>, SpecLexError>(
            (SpecLexError { kind: LexErrorKind::IllegalNewlineInString, line }),
        ),
{
    let text = seq!['"'] + body + rest;
    assert(text[0] == '"');
    assert(text[1 + k] == '\n');
    assert forall|i: int| 1 <= i < 1 + k implies text[i] != '"' && #[trigger] text[i] != '\n' by {
        assert(text[i] == body[i - 1]);
    }
    lemma_string_body_end_at(text, 1, 1 + k);
}

/// A numeric lexeme continued at `i` runs exactly to `j`, the first
/// position at or after `i` holding neither a digit nor a decimal point;
/// with `parse_number`'s contract this fixes the raw text and the cursor
/// of every numeric lexeme, wherever it stands in the text.
pub proof fn lemma_num_end_at(text: Seq<char>, i: int, j: int)
    requires
        0 <= i <= j <= text.len(),
        forall|k: int| i <= k < j ==> is_digit(#[trigger] text[k]) || text[k] == '.',
        j < text.len() ==> !is_digit(text[j]) && text[j] != '.',
    ensures
        num_end(text, i) == j,
    decreases j - i,
{
    if i < j {
        lemma_num_end_at(text, i + 1, j);
    }
}

/// A digit sequence with no decimal point whose value fits the unsigned
/// 32-bit range scans to exactly one `Int` token with that value.
pub proof fn lemma_int_literal(text: Seq<char>, line: nat)
    requires
        text.len() > 0,
        all_digits(text),
        digits_val(text) <= u32::MAX,
    ensures
        spec_scan(text, 0, line) == Ok::<Seq<SpecToken>, SpecLexError>(
            seq![(SpecToken { kind: SpecTokenKind::Int(digits_val(text) as u32), line })],
        ),
{
    lemma_num_end_at(text, 1, text.len() as int);
    assert(text.subrange(0, text.len() as int) =~= text);
    assert(spec_scan(text, text.len() as int, line) == Ok::<Seq<SpecToken>, SpecLexError>(
        Seq::empty(),
    ));
    let tok = SpecToken { kind: SpecTokenKind::Int(digits_val(text) as u32), line };
    assert(num_kind(text) == tok.kind);
    assert(seq![tok] + Seq::<SpecToken>::empty() =~= seq![tok]);
}

/// A digit-led lexeme of digits and decimal points that holds a decimal
/// point scans to exactly one `Float` token carrying the raw text
/// verbatim.
pub proof fn lemma_float_literal(text: Seq<char>, k: int, line: nat)
    requires
        text.len() > 0,
        is_digit(text[0]),
        forall|i: int| 0 <= i < text.len() ==> is_digit(#[trigger] text[i]) || text[i] == '.',
        0 <= k < text.len(),
        text[k] == '.',
    ensures
        spec_scan(text, 0, line) == Ok::<Seq<SpecToken>, SpecLexError>(
            seq![(SpecToken { kind: SpecTokenKind::Float(text), line })],
        ),
{
    lemma_num_end_at(text, 1, text.len() as int);
    assert(text.subrange(0, text.len() as int) =~= text);
    assert(spec_scan(text, text.len() as int, line) == Ok::<Seq<SpecToken>, SpecLexError>(
        Seq::empty(),
    ));
    assert(!is_digit('.'));
    assert(!all_digits(text));
    let tok = SpecToken { kind: SpecTokenKind::Float(text), line };
    assert(seq![tok] + Seq::<SpecToken>::empty() =~= seq![tok]);
}

/// An identifier continued at `i` runs exactly to `j`, the first
/// non-alphanumeric position at or after `i`; with `parse_identifier`'s
/// contract this fixes the run and the cursor of every identifier,
/// wherever it stands in the text.
pub proof fn lemma_ident_end_at(text: Seq<char>, i: int, j: int)
    requires
        0 <= i <= j <= text.len(),
        forall|k: int| i <= k < j ==> is_alnum(#[trigger] text[k]),
        j < text.len() ==> !is_alnum(text[j]),
    ensures
        ident_end(text, i) == j,
    decreases j - i,
{
    if i < j {
        lemma_ident_end_at(text, i + 1, j);
    }
}

/// An alphanumeric run led by a letter scans to exactly one token: the
/// keyword token for the exact text `def`, and otherwise `Ident` carrying
/// the run verbatim.
pub proof fn lemma_identifier_run(text: Seq<char>, line: nat)
    requires
        text.len() > 0,
        is_alnum(text[0]),
        !is_digit(text[0]),
        forall|i: int| 0 <= i < text.len() ==> is_alnum(#[trigger] text[i]),
    ensures
        spec_scan(text, 0, line) == Ok::<Seq<SpecToken>, SpecLexError>(
            seq![(SpecToken { kind: ident_kind(text), line })],
        ),
{
    lemma_ident_end_at(text, 1, text.len() as int);
    assert(text.subrange(0, text.len() as int) =~= text);
    assert(spec_scan(text, text.len() as int, line) == Ok::<Seq<SpecToken>, SpecLexError>(
        Seq::empty(),
    ));
    let tok = SpecToken { kind: ident_kind(text), line };
    assert(seq![tok] + Seq::<SpecToken>::empty() =~= seq![tok]);
}

} // verus!
