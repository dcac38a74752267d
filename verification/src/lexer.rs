//! The executable scanner.
//!
//! A `Lexer` owns the source text (materialized as a vector of characters,
//! so that the cursor reads in constant time), an advisory file label used
//! only in error reports, the tokens emitted so far, and a cursor: the next
//! unread position and the current 1-based line.  `tokenize` consumes the
//! scanner and returns exactly the token sequence that the mathematical
//! scanner (`model::spec_scan`) assigns to the text, or its first error.

use vstd::prelude::*;

use crate::model::{
    all_digits, comment_end, def_seq, digits_val, ident_end, ident_kind, int_fits, is_alnum,
    is_digit, is_operator, is_structural, lemma_comment_end, lemma_emit_one,
    lemma_with_tokens_empty, num_end, num_kind, operator_kind, spec_scan, string_body_end,
    structural_kind, with_tokens,
};
use crate::token::{
    views, LexError, LexErrorKind, SpecLexError, SpecToken, SpecTokenKind, Token, TokenKind,
    lemma_views_push,
};

verus! {

/// Builds a `String` holding exactly the given characters.
///
/// Relies on `String`'s `FromIterator<char>` implementation: collecting an
/// iterator of characters yields the string of those characters in order.
#[verifier::external_body]
fn chars_to_string(chars: &Vec<char>) -> (r: String)
    ensures
        r@ == chars@,
{
    chars.iter().collect()
}

/// Decides whether a character is an ASCII decimal digit.
fn is_digit_char(c: char) -> (r: bool)
    ensures
        r == is_digit(c),
{
    '0' <= c && c <= '9'
}

/// Decides whether a character is ASCII alphanumeric.
fn is_alnum_char(c: char) -> (r: bool)
    ensures
        r == is_alnum(c),
{
    is_digit_char(c) || ('a' <= c && c <= 'z') || ('A' <= c && c <= 'Z')
}

/// The structural token for a punctuation character.
fn structural_token(c: char) -> (r: TokenKind)
    requires
        is_structural(c),
    ensures
        r@ == structural_kind(c),
{
    match c {
        '(' => TokenKind::LParen,
        ')' => TokenKind::RParen,
        '{' => TokenKind::LBrace,
        '}' => TokenKind::RBrace,
        '[' => TokenKind::LBracket,
        ']' => TokenKind::RBracket,
        ':' => TokenKind::Colon,
        ';' => TokenKind::Semicolon,
        _ => TokenKind::Comma,
    }
}

/// Parses a run of characters as an unsigned 32-bit decimal integer.
///
/// Returns `Some` exactly when the run is non-empty, holds only decimal
/// digits, and its value fits; the value is then the decimal value of the
/// digits.
#[verifier::loop_isolation(false)]
fn parse_u32_digits(digits: &Vec<char>) -> (r: Option<u32>)
    ensures
        r is Some <==> digits@.len() > 0 && int_fits(digits@),
        r is Some ==> r->0 == digits_val(digits@),
{
    if digits.len() == 0 {
        return None;
    }
    let mut acc: u32 = 0;
    let mut i: usize = 0;
    while i < digits.len()
        invariant
            0 <= i <= digits@.len(),
            all_digits(digits@.subrange(0, i as int)),
            acc == digits_val(digits@.subrange(0, i as int)),
        decreases digits@.len() - i,
    {
        let c = digits[i];
        proof {
            assert(digits@.subrange(0, i + 1).drop_last() =~= digits@.subrange(0, i as int));
            assert(digits@.subrange(0, i + 1).last() == digits@[i as int]);
        }
        if !is_digit_char(c) {
            return None;
        }
        let d: u32 = (c as u32) - 48;
        if acc > (u32::MAX - d) / 10 {
            proof {
                lemma_digits_val_grows(digits@, i + 1);
            }
            return None;
        }
        acc = acc * 10 + d;
        i = i + 1;
    }
    proof {
        assert(digits@.subrange(0, digits@.len() as int) =~= digits@);
    }
    Some(acc)
}

/// Once a digit prefix exceeds the 32-bit range, the value of any longer
/// all-digit run exceeds it as well.
proof fn lemma_digits_val_grows(s: Seq<char>, i: int)
    requires
        0 <= i <= s.len(),
        digits_val(s.subrange(0, i)) > u32::MAX,
    ensures
        all_digits(s) ==> digits_val(s) > u32::MAX,
    decreases s.len() - i,
{
    if i == s.len() {
        assert(s.subrange(0, i) =~= s);
    } else {
        if all_digits(s) {
            assert(s.subrange(0, i + 1).drop_last() =~= s.subrange(0, i));
            assert(s.subrange(0, i + 1).last() == s[i]);
            assert(crate::model::digit_val(s[i]) >= 0);
            assert(digits_val(s.subrange(0, i + 1)) > u32::MAX);
            lemma_digits_val_grows(s, i + 1);
        }
    }
}

/// The scanner.  It owns a copy of the source text and an advisory file
/// label, and walks the text once, accumulating tokens.
pub struct Lexer {
    program: Vec<char>,
    file: String,
    tokens: Vec<Token>,
    position: usize,
    line: usize,
}

impl Lexer {
    /// The character sequence of the source text.
    pub closed spec fn text(self) -> Seq<char> {
        self.program@
    }

    /// The advisory file label carried into error reports.
    pub closed spec fn file_label(self) -> Seq<char> {
        self.file@
    }

    /// What a completed scan of this scanner returns: the tokens emitted so
    /// far followed by whatever scanning the rest of the text yields.
    pub closed spec fn pending(self) -> Result<Seq<SpecToken>, SpecLexError> {
        with_tokens(
            views(self.tokens@),
            spec_scan(self.program@, self.position as int, self.line as nat),
        )
    }

    /// Validity of the cursor: the next unread position is within the text,
    /// and the line counter started at 1 and grew by at most one per
    /// consumed character.
    pub closed spec fn wf(self) -> bool {
        &&& self.position <= self.program@.len()
        &&& 1 <= self.line
        &&& self.line <= self.position + 1
        &&& self.program@.len() < usize::MAX
    }

    /// Constructs a scanner over the given source text, with an advisory
    /// file label used only for error messages.  The cursor starts at the
    /// first character, on line 1, with no tokens emitted.
    #[verifier::loop_isolation(false)]
    pub fn new(program: String, file: String) -> (r: Lexer)
        requires
            program@.len() < usize::MAX,
        ensures
            r.wf(),
            r.text() == program@,
            r.file_label() == file@,
            r.pending() == spec_scan(program@, 0, 1),
    {
        let n = program.as_str().unicode_len();
        let mut chars: Vec<char> = Vec::new();
        let mut i: usize = 0;
        while i < n
            invariant
                i <= n,
                chars@ == program@.subrange(0, i as int),
            decreases n - i,
        {
            let c = program.as_str().get_char(i);
            chars.push(c);
            proof {
                assert(chars@ =~= program@.subrange(0, i + 1));
            }
            i = i + 1;
        }
        proof {
            assert(chars@ =~= program@);
        }
        let r = Lexer { program: chars, file, tokens: Vec::new(), position: 0, line: 1 };
        proof {
            assert(views(r.tokens@) =~= Seq::<SpecToken>::empty());
            lemma_with_tokens_empty(spec_scan(program@, 0, 1));
        }
        r
    }

    /// The last character consumed, or none at the very start.
    fn previous(&self) -> (r: Option<char>)
        requires
            self.wf(),
        ensures
            r == (if 1 <= self.position {
                Some(self.program@[self.position - 1])
            } else {
                None::<char>
            }),
    {
        if self.position >= 1 {
            Some(self.program[self.position - 1])
        } else {
            None
        }
    }

    /// The next unread character, without consuming it, or none at the end.
    fn current(&self) -> (r: Option<char>)
        requires
            self.wf(),
        ensures
            r == (if self.position < self.program@.len() {
                Some(self.program@[self.position as int])
            } else {
                None::<char>
            }),
    {
        if self.position < self.program.len() {
            Some(self.program[self.position])
        } else {
            None
        }
    }

    /// Consumes and returns the next character; at the end it is a no-op
    /// that reports none.
    fn advance(&mut self) -> (r: Option<char>)
        requires
            old(self).wf(),
        ensures
            final(self).wf(),
            final(self).program == old(self).program,
            final(self).file == old(self).file,
            final(self).tokens == old(self).tokens,
            final(self).line == old(self).line,
            old(self).position < old(self).program@.len() ==> final(self).position == old(
                self,
            ).position + 1 && r == Some(old(self).program@[old(self).position as int]),
            old(self).position >= old(self).program@.len() ==> *final(self) == *old(self) && r
                == None::<char>,
    {
        if self.position < self.program.len() {
            let c = self.program[self.position];
            self.position = self.position + 1;
            Some(c)
        } else {
            None
        }
    }

    /// True when every character has been consumed.
    fn is_at_end(&self) -> (r: bool)
        ensures
            r == (self.position >= self.program@.len()),
    {
        self.position >= self.program.len()
    }

    /// True when the cursor stands inside a comment body: on a character
    /// other than the newline that ends it.
    fn in_comment(&self) -> (r: bool)
        requires
            self.wf(),
        ensures
            r == (self.position < self.program@.len() && self.program@[self.position as int]
                != '\n'),
    {
        match self.current() {
            Some(c) => c != '\n',
            None => false,
        }
    }

    /// True when the cursor stands on a character that continues the body
    /// of a string literal.
    fn in_string_body(&self) -> (r: bool)
        requires
            self.wf(),
        ensures
            r == (self.position < self.program@.len() && self.program@[self.position as int] != '"'
                && self.program@[self.position as int] != '\n'),
    {
        match self.current() {
            Some(c) => c != '"' && c != '\n',
            None => false,
        }
    }

    /// True when the cursor stands on a character that continues a numeric
    /// lexeme.
    fn in_number(&self) -> (r: bool)
        requires
            self.wf(),
        ensures
            r == (self.position < self.program@.len() && (is_digit(
                self.program@[self.position as int],
            ) || self.program@[self.position as int] == '.')),
    {
        match self.current() {
            Some(c) => is_digit_char(c) || c == '.',
            None => false,
        }
    }

    /// True when the cursor stands on a character that continues an
    /// identifier.
    fn in_identifier(&self) -> (r: bool)
        requires
            self.wf(),
        ensures
            r == (self.position < self.program@.len() && is_alnum(
                self.program@[self.position as int],
            )),
    {
        match self.current() {
            Some(c) => is_alnum_char(c),
            None => false,
        }
    }

    /// Emits a token of the given kind on the current line.
    fn push_token(&mut self, kind: TokenKind)
        requires
            old(self).wf(),
        ensures
            final(self).wf(),
            final(self).program == old(self).program,
            final(self).file == old(self).file,
            final(self).position == old(self).position,
            final(self).line == old(self).line,
            final(self).tokens@ == old(self).tokens@.push(
                (Token { kind: kind, line: old(self).line }),
            ),
    {
        let line = self.line;
        self.tokens.push(Token { kind, line });
    }

    /// Skips a comment body: consumes through the end of the line (or the
    /// end of the input) and advances the line counter once.
    #[verifier::loop_isolation(false)]
    fn skip_comment(&mut self)
        requires
            old(self).wf(),
            old(self).line <= old(self).position,
        ensures
            final(self).wf(),
            final(self).program == old(self).program,
            final(self).file == old(self).file,
            final(self).tokens == old(self).tokens,
            final(self).position == comment_end(old(self).program@, old(self).position as int),
            final(self).line == old(self).line + 1,
    {
        let ghost text = self.program@;
        let ghost start = self.position as int;
        while self.in_comment()
            invariant
                self.wf(),
                self.program == old(self).program,
                self.file == old(self).file,
                self.tokens == old(self).tokens,
                self.line == old(self).line,
                start <= self.position as int,
                comment_end(text, start) == comment_end(text, self.position as int),
            decreases text.len() - self.position as int,
        {
            self.advance();
        }
        if !self.is_at_end() {
            self.advance();
        }
        self.line = self.line + 1;
    }

    /// Scans a string literal; the opening quote has just been consumed.
    ///
    /// Succeeds, consuming the closing quote and emitting the body verbatim,
    /// exactly when a closing quote appears before any raw newline and
    /// before the end of the input; a raw newline fails the scan with
    /// `IllegalNewlineInString`, and running out of input fails it with
    /// `UnterminatedString`, both reported at the line of the opening quote.
    #[verifier::loop_isolation(false)]
    fn parse_string(&mut self) -> (r: Result<(), LexError>)
        requires
            old(self).wf(),
        ensures
            final(self).wf(),
            final(self).program == old(self).program,
            final(self).file == old(self).file,
            final(self).line == old(self).line,
            old(self).position <= final(self).position,
            ({
                let text = old(self).program@;
                let start = old(self).position as int;
                let j = string_body_end(text, start);
                match r {
                    Ok(()) => {
                        &&& j < text.len() && text[j] == '"'
                        &&& final(self).position == j + 1
                        &&& views(final(self).tokens@) == views(old(self).tokens@).push(
                            (SpecToken {
                                kind: SpecTokenKind::Str(text.subrange(start, j)),
                                line: old(self).line as nat,
                            }),
                        )
                    },
                    Err(e) => {
                        &&& final(self).tokens == old(self).tokens
                        &&& final(self).position == j
                        &&& (j >= text.len() || text[j] == '\n')
                        &&& e.kind == (if j >= text.len() {
                            LexErrorKind::UnterminatedString
                        } else {
                            LexErrorKind::IllegalNewlineInString
                        })
                        &&& e.line == old(self).line
                        &&& e.file@ == old(self).file@
                    },
                }
            }),
    {
        let ghost text = self.program@;
        let ghost start = self.position as int;
        let mut buf: Vec<char> = Vec::new();
        while self.in_string_body()
            invariant
                self.wf(),
                self.program == old(self).program,
                self.file == old(self).file,
                self.tokens == old(self).tokens,
                self.line == old(self).line,
                start <= self.position as int <= text.len(),
                buf@ == text.subrange(start, self.position as int),
                string_body_end(text, start) == string_body_end(text, self.position as int),
            decreases text.len() - self.position as int,
        {
            let c = self.current().unwrap();
            buf.push(c);
            self.advance();
            proof {
                assert(buf@ =~= text.subrange(start, self.position as int));
            }
        }
        proof {
            assert(self.position as int == string_body_end(text, start));
        }
        if self.is_at_end() {
            return Err(
                LexError {
                    kind: LexErrorKind::UnterminatedString,
                    file: self.file.clone(),
                    line: self.line,
                },
            );
        }
        let c = self.current().unwrap();
        if c == '\n' {
            return Err(
                LexError {
                    kind: LexErrorKind::IllegalNewlineInString,
                    file: self.file.clone(),
                    line: self.line,
                },
            );
        }
        self.advance();
        let body = chars_to_string(&buf);
        let ghost toks_before = self.tokens@;
        self.push_token(TokenKind::Str(body));
        proof {
            lemma_views_push(
                toks_before,
                (Token { kind: TokenKind::Str(body), line: old(self).line }),
            );
        }
        Ok(())
    }

    /// Scans a numeric lexeme; its first digit has just been consumed.
    ///
    /// Accumulates the maximal following run of digits and decimal points;
    /// a run that holds only digits and fits the unsigned 32-bit range is
    /// emitted as `Int` with its decimal value, any other run as `Float`
    /// carrying the raw text.
    #[verifier::loop_isolation(false)]
    fn parse_number(&mut self)
        requires
            old(self).wf(),
            1 <= old(self).position,
            is_digit(old(self).program@[old(self).position - 1]),
        ensures
            final(self).wf(),
            final(self).program == old(self).program,
            final(self).file == old(self).file,
            final(self).line == old(self).line,
            old(self).position <= final(self).position,
            ({
                let text = old(self).program@;
                let start = old(self).position as int;
                let j = num_end(text, start);
                &&& final(self).position == j
                &&& views(final(self).tokens@) == views(old(self).tokens@).push(
                    (SpecToken {
                        kind: num_kind(text.subrange(start - 1, j)),
                        line: old(self).line as nat,
                    }),
                )
            }),
    {
        let ghost text = self.program@;
        let ghost start = self.position as int;
        let first = self.previous().unwrap();
        let mut buf: Vec<char> = Vec::new();
        buf.push(first);
        proof {
            assert(buf@ =~= text.subrange(start - 1, start));
        }
        while self.in_number()
            invariant
                self.wf(),
                self.program == old(self).program,
                self.file == old(self).file,
                self.tokens == old(self).tokens,
                self.line == old(self).line,
                start <= self.position as int <= text.len(),
                buf@ == text.subrange(start - 1, self.position as int),
                num_end(text, start) == num_end(text, self.position as int),
            decreases text.len() - self.position as int,
        {
            let c = self.current().unwrap();
            buf.push(c);
            self.advance();
            proof {
                assert(buf@ =~= text.subrange(start - 1, self.position as int));
            }
        }
        proof {
            assert(self.position as int == num_end(text, start));
        }
        let ghost toks_before = self.tokens@;
        match parse_u32_digits(&buf) {
            Some(n) => {
                self.push_token(TokenKind::Int(n));
                proof {
                    lemma_views_push(
                        toks_before,
                        (Token { kind: TokenKind::Int(n), line: old(self).line }),
                    );
                }
            },
            None => {
                let raw = chars_to_string(&buf);
                self.push_token(TokenKind::Float(raw));
                proof {
                    lemma_views_push(
                        toks_before,
                        (Token { kind: TokenKind::Float(raw), line: old(self).line }),
                    );
                }
            },
        }
    }

    /// Scans an identifier or the reserved keyword; its first character has
    /// just been consumed.
    ///
    /// Accumulates the maximal following alphanumeric run; the exact text
    /// `def` is emitted as the keyword token, anything else as `Ident`
    /// carrying the run verbatim.
    #[verifier::loop_isolation(false)]
    fn parse_identifier(&mut self)
        requires
            old(self).wf(),
            1 <= old(self).position,
            is_alnum(old(self).program@[old(self).position - 1]),
        ensures
            final(self).wf(),
            final(self).program == old(self).program,
            final(self).file == old(self).file,
            final(self).line == old(self).line,
            old(self).position <= final(self).position,
            ({
                let text = old(self).program@;
                let start = old(self).position as int;
                let j = ident_end(text, start);
                &&& final(self).position == j
                &&& views(final(self).tokens@) == views(old(self).tokens@).push(
                    (SpecToken {
                        kind: ident_kind(text.subrange(start - 1, j)),
                        line: old(self).line as nat,
                    }),
                )
            }),
    {
        let ghost text = self.program@;
        let ghost start = self.position as int;
        let first = self.previous().unwrap();
        let mut buf: Vec<char> = Vec::new();
        buf.push(first);
        proof {
            assert(buf@ =~= text.subrange(start - 1, start));
        }
        while self.in_identifier()
            invariant
                self.wf(),
                self.program == old(self).program,
                self.file == old(self).file,
                self.tokens == old(self).tokens,
                self.line == old(self).line,
                start <= self.position as int <= text.len(),
                buf@ == text.subrange(start - 1, self.position as int),
                ident_end(text, start) == ident_end(text, self.position as int),
            decreases text.len() - self.position as int,
        {
            let c = self.current().unwrap();
            buf.push(c);
            self.advance();
            proof {
                assert(buf@ =~= text.subrange(start - 1, self.position as int));
            }
        }
        proof {
            assert(self.position as int == ident_end(text, start));
        }
        let is_def = buf.len() == 3 && buf[0] == 'd' && buf[1] == 'e' && buf[2] == 'f';
        proof {
            if is_def {
                assert(buf@ =~= def_seq());
            } else {
                if buf@ == def_seq() {
                    assert(buf@.len() == 3);
                    assert(buf@[0] == 'd' && buf@[1] == 'e' && buf@[2] == 'f');
                }
            }
        }
        let ghost toks_before = self.tokens@;
        if is_def {
            self.push_token(TokenKind::Def);
            proof {
                lemma_views_push(
                    toks_before,
                    (Token { kind: TokenKind::Def, line: old(self).line }),
                );
            }
        } else {
            let raw = chars_to_string(&buf);
            self.push_token(TokenKind::Ident(raw));
            proof {
                lemma_views_push(
                    toks_before,
                    (Token { kind: TokenKind::Ident(raw), line: old(self).line }),
                );
            }
        }
    }

    /// Consumes one character and dispatches on it: a structural or
    /// operator character emits exactly its one token; a quote scans one
    /// string literal; `#` skips one comment and advances the line counter
    /// once; a newline only advances the line counter; a digit scans one
    /// numeric lexeme and any other alphanumeric character one identifier;
    /// everything else is consumed silently.  A completed scan of the
    /// scanner returns the same after the call as before it.
    fn parse_token(&mut self) -> (r: Result<(), LexError>)
        requires
            old(self).wf(),
            old(self).position < old(self).program@.len(),
        ensures
            final(self).wf(),
            final(self).program == old(self).program,
            final(self).file == old(self).file,
            old(self).position < final(self).position,
            ({
                let text = old(self).program@;
                let p = old(self).position as int;
                let c = text[p];
                let ln = old(self).line as nat;
                match r {
                    Ok(()) => {
                        &&& with_tokens(views(old(self).tokens@), spec_scan(text, p, ln))
                            == with_tokens(
                            views(final(self).tokens@),
                            spec_scan(
                                final(self).program@,
                                final(self).position as int,
                                final(self).line as nat,
                            ),
                        )
                        &&& (is_structural(c) ==> final(self).position == p + 1 && final(self).line
                            == old(self).line && views(final(self).tokens@) == views(
                            old(self).tokens@,
                        ).push((SpecToken { kind: structural_kind(c), line: ln })))
                        &&& (is_operator(c) ==> final(self).position == p + 1 && final(self).line
                            == old(self).line && views(final(self).tokens@) == views(
                            old(self).tokens@,
                        ).push((SpecToken { kind: operator_kind(c), line: ln })))
                        &&& (c == '"' ==> ({
                            let j = string_body_end(text, p + 1);
                            &&& j < text.len() && text[j] == '"'
                            &&& final(self).position == j + 1
                            &&& final(self).line == old(self).line
                            &&& views(final(self).tokens@) == views(old(self).tokens@).push(
                                (SpecToken {
                                    kind: SpecTokenKind::Str(text.subrange(p + 1, j)),
                                    line: ln,
                                }),
                            )
                        }))
                        &&& (c == '#' ==> final(self).position == comment_end(text, p + 1)
                            && final(self).line == old(self).line + 1 && final(self).tokens == old(
                            self,
                        ).tokens)
                        &&& (c == '\n' ==> final(self).position == p + 1 && final(self).line == old(
                            self,
                        ).line + 1 && final(self).tokens == old(self).tokens)
                        &&& (is_digit(c) ==> ({
                            let j = num_end(text, p + 1);
                            &&& final(self).position == j
                            &&& final(self).line == old(self).line
                            &&& views(final(self).tokens@) == views(old(self).tokens@).push(
                                (SpecToken { kind: num_kind(text.subrange(p, j)), line: ln }),
                            )
                        }))
                        &&& (is_alnum(c) && !is_digit(c) ==> ({
                            let j = ident_end(text, p + 1);
                            &&& final(self).position == j
                            &&& final(self).line == old(self).line
                            &&& views(final(self).tokens@) == views(old(self).tokens@).push(
                                (SpecToken { kind: ident_kind(text.subrange(p, j)), line: ln }),
                            )
                        }))
                        &&& (!is_structural(c) && !is_operator(c) && c != '"' && c != '#' && c
                            != '\n' && !is_alnum(c) ==> final(self).position == p + 1
                            && final(self).line == old(self).line && final(self).tokens == old(
                            self,
                        ).tokens)
                    },
                    Err(e) => {
                        &&& c == '"'
                        &&& ({
                            let j = string_body_end(text, p + 1);
                            &&& final(self).position == j
                            &&& (j >= text.len() || text[j] == '\n')
                            &&& e.kind == (if j >= text.len() {
                                LexErrorKind::UnterminatedString
                            } else {
                                LexErrorKind::IllegalNewlineInString
                            })
                        })
                        &&& final(self).tokens == old(self).tokens
                        &&& final(self).line == old(self).line
                        &&& e.line == old(self).line
                        &&& e.file@ == old(self).file@
                        &&& spec_scan(text, p, ln) == Err::<Seq<SpecToken>, SpecLexError>(
                            (SpecLexError { kind: e.kind, line: e.line as nat }),
                        )
                    },
                }
            }),
    {
        let ghost text = self.program@;
        let ghost p = self.position as int;
        let ghost line = self.line as nat;
        let c = self.advance().unwrap();
        match c {
            '(' | ')' | '{' | '}' | '[' | ']' | ':' | ';' | ',' => {
                let kind = structural_token(c);
                let ghost toks_before = self.tokens@;
                let ghost tok = SpecToken { kind: structural_kind(c), line };
                self.push_token(kind);
                proof {
                    lemma_views_push(toks_before, (Token { kind: kind, line: old(self).line }));
                    lemma_emit_one(views(toks_before), tok, spec_scan(text, p + 1, line));
                }
                Ok(())
            },
            '+' | '-' | '*' | '/' | '%' | '^' | '=' => {
                let ghost toks_before = self.tokens@;
                let ghost tok = SpecToken { kind: SpecTokenKind::Operator(c), line };
                self.push_token(TokenKind::Operator(c));
                proof {
                    lemma_views_push(
                        toks_before,
                        (Token { kind: TokenKind::Operator(c), line: old(self).line }),
                    );
                    lemma_emit_one(views(toks_before), tok, spec_scan(text, p + 1, line));
                }
                Ok(())
            },
            '"' => {
                let ghost toks_before = self.tokens@;
                match self.parse_string() {
                    Ok(()) => {
                        proof {
                            let j = string_body_end(text, p + 1);
                            let tok = SpecToken {
                                kind: SpecTokenKind::Str(text.subrange(p + 1, j)),
                                line,
                            };
                            lemma_emit_one(views(toks_before), tok, spec_scan(text, j + 1, line));
                        }
                        Ok(())
                    },
                    Err(e) => Err(e),
                }
            },
            '#' => {
                self.skip_comment();
                proof {
                    lemma_comment_end(text, p + 1);
                }
                Ok(())
            },
            '\n' => {
                self.line = self.line + 1;
                Ok(())
            },
            _ => {
                if is_digit_char(c) {
                    let ghost toks_before = self.tokens@;
                    self.parse_number();
                    proof {
                        let j = num_end(text, p + 1);
                        let tok = SpecToken { kind: num_kind(text.subrange(p, j)), line };
                        lemma_emit_one(views(toks_before), tok, spec_scan(text, j, line));
                    }
                    Ok(())
                } else if is_alnum_char(c) {
                    let ghost toks_before = self.tokens@;
                    self.parse_identifier();
                    proof {
                        let j = ident_end(text, p + 1);
                        let tok = SpecToken { kind: ident_kind(text.subrange(p, j)), line };
                        lemma_emit_one(views(toks_before), tok, spec_scan(text, j, line));
                    }
                    Ok(())
                } else {
                    Ok(())
                }
            },
        }
    }

    /// Scans the whole text: repeatedly consumes the next lexeme until the
    /// end of the input, then hands over the finished token sequence, or
    /// the first lexical error, which aborts the scan with no tokens.
    ///
    /// The result is exactly what `pending` assigned to the scanner at the
    /// call: for a scanner fresh from `new`, the mathematical scan of the
    /// whole text from line 1.
    #[verifier::loop_isolation(false)]
    pub fn tokenize(self) -> (r: Result<Vec<Token>, LexError>)
        requires
            self.wf(),
        ensures
            match r {
                Ok(toks) => self.pending() == Ok::<Seq<SpecToken>, SpecLexError>(views(toks@)),
                Err(e) => self.pending() == Err::<Seq<SpecToken>, SpecLexError>(
                    (SpecLexError { kind: e.kind, line: e.line as nat }),
                ) && e.file@ == self.file_label(),
            },
    {
        let ghost orig = self;
        let mut this = self;
        while !this.is_at_end()
            invariant
                this.wf(),
                this.program == orig.program,
                this.file == orig.file,
                this.pending() == orig.pending(),
            decreases this.program@.len() - this.position as int,
        {
            match this.parse_token() {
                Ok(()) => {
                },
                Err(e) => {
                    return Err(e);
                },
            }
        }
        proof {
            assert(views(this.tokens@) + Seq::<SpecToken>::empty() =~= views(this.tokens@));
        }
        Ok(this.tokens)
    }
}

} // verus!
