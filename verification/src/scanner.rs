//! The scanner: one forward pass turning source text into tokens.
//!
//! `spec_scan` is the mathematical scanner over a character sequence; the
//! executable `Scanner::scan` is proved to return exactly its tokens, or
//! exactly its error.

use vstd::prelude::*;

use crate::literal::LitV;
use crate::literal::Literal;
use crate::text::check_alnum;
use crate::text::check_alpha;
use crate::text::check_digit;
use crate::text::digits_value;
use crate::text::is_alnum;
use crate::text::is_alpha;
use crate::text::is_digit;
use crate::text::is_space;
use crate::text::string_from_chars;
use crate::token::Token;
use crate::token::TokenV;
use crate::token_type::keyword_kind;
use crate::token_type::spec_keyword;
use crate::token_type::TokenType;

verus! {

broadcast use vstd::std_specs::vec::group_vec_axioms;

/// A condition fatal to the whole scan.
#[derive(Debug, PartialEq, Eq)]
pub enum ScanError {
    /// A character outside the language's alphabet, carried for diagnostics.
    UnknownChar(char),
    /// A string literal still open at the end of the input.
    UnterminatedString,
}

/// A token without a payload.
pub open spec fn punct(kind: TokenType) -> TokenV {
    TokenV { kind, literal: LitV::Nil }
}

/// The first position at or after `pos` that does not hold a digit.
pub open spec fn digits_end(s: Seq<char>, pos: int) -> int
    decreases s.len() - pos,
{
    if 0 <= pos < s.len() && is_digit(s[pos]) {
        digits_end(s, pos + 1)
    } else {
        pos
    }
}

/// The first position at or after `pos` that does not hold a letter or
/// digit.
pub open spec fn word_end(s: Seq<char>, pos: int) -> int
    decreases s.len() - pos,
{
    if 0 <= pos < s.len() && is_alnum(s[pos]) {
        word_end(s, pos + 1)
    } else {
        pos
    }
}

/// The first position at or after `pos` that holds a closing double quote,
/// or the input's length if none does.
pub open spec fn string_end(s: Seq<char>, pos: int) -> int
    decreases s.len() - pos,
{
    if 0 <= pos < s.len() && s[pos] != '"' {
        string_end(s, pos + 1)
    } else {
        pos
    }
}

/// Bounds and character facts for a run of digits.
pub proof fn lemma_digits_end(s: Seq<char>, pos: int)
    requires
        0 <= pos <= s.len(),
    ensures
        pos <= digits_end(s, pos) <= s.len(),
        forall|j: int| pos <= j < digits_end(s, pos) ==> is_digit(#[trigger] s[j]),
        digits_end(s, pos) < s.len() ==> !is_digit(s[digits_end(s, pos)]),
    decreases s.len() - pos,
{
    if pos < s.len() && is_digit(s[pos]) {
        lemma_digits_end(s, pos + 1);
    }
}

/// Bounds and character facts for a run of letters and digits.
pub proof fn lemma_word_end(s: Seq<char>, pos: int)
    requires
        0 <= pos <= s.len(),
    ensures
        pos <= word_end(s, pos) <= s.len(),
        forall|j: int| pos <= j < word_end(s, pos) ==> is_alnum(#[trigger] s[j]),
        word_end(s, pos) < s.len() ==> !is_alnum(s[word_end(s, pos)]),
    decreases s.len() - pos,
{
    if pos < s.len() && is_alnum(s[pos]) {
        lemma_word_end(s, pos + 1);
    }
}

/// Bounds and character facts for the body of a string literal.
pub proof fn lemma_string_end(s: Seq<char>, pos: int)
    requires
        0 <= pos <= s.len(),
    ensures
        pos <= string_end(s, pos) <= s.len(),
        forall|j: int| pos <= j < string_end(s, pos) ==> #[trigger] s[j] != '"',
        string_end(s, pos) < s.len() ==> s[string_end(s, pos)] == '"',
    decreases s.len() - pos,
{
    if pos < s.len() && s[pos] != '"' {
        lemma_string_end(s, pos + 1);
    }
}

/// The value carried by a number token: the digits read in base ten, or zero
/// when a fractional part was consumed or the digits exceed the number
/// range, as a failed parse defaults to zero.
pub open spec fn number_value(digits: Seq<char>, fractional: bool) -> LitV {
    if fractional {
        LitV::Num(0)
    } else if digits_value(digits) <= i64::MAX {
        LitV::Num(digits_value(digits) as int)
    } else {
        LitV::Num(0)
    }
}

/// One step of the scanner at position `pos` (which must hold a character):
/// the token it produces, if any, and the position after it; or the error
/// that stops the scan.
pub open spec fn spec_scan_token(s: Seq<char>, pos: int) -> Result<
    (Option<TokenV>, int),
    ScanError,
> {
    let c = s[pos];
    if is_space(c) {
        Ok((None, pos + 1))
    } else if c == ';' {
        Ok((Some(punct(TokenType::Semicolon)), pos + 1))
    } else if c == '(' {
        Ok((Some(punct(TokenType::LeftParen)), pos + 1))
    } else if c == ')' {
        Ok((Some(punct(TokenType::RightParen)), pos + 1))
    } else if c == '{' {
        Ok((Some(punct(TokenType::LeftBrace)), pos + 1))
    } else if c == '}' {
        Ok((Some(punct(TokenType::RightBrace)), pos + 1))
    } else if c == '+' {
        Ok((Some(punct(TokenType::Plus)), pos + 1))
    } else if c == '-' {
        Ok((Some(punct(TokenType::Minus)), pos + 1))
    } else if c == '/' {
        Ok((Some(punct(TokenType::Slash)), pos + 1))
    } else if c == '=' {
        Ok((Some(punct(TokenType::Equal)), pos + 1))
    } else if c == '!' {
        Ok((Some(punct(TokenType::Bang)), pos + 1))
    } else if c == '*' {
        if pos + 1 < s.len() && s[pos + 1] == '*' {
            Ok((Some(punct(TokenType::StarStar)), pos + 2))
        } else {
            Ok((Some(punct(TokenType::Star)), pos + 1))
        }
    } else if c == '"' {
        let close = string_end(s, pos + 1);
        if close >= s.len() {
            Err(ScanError::UnterminatedString)
        } else {
            Ok(
                (
                    Some(
                        TokenV {
                            kind: TokenType::Str,
                            literal: LitV::Str(s.subrange(pos + 1, close)),
                        },
                    ),
                    close + 1,
                ),
            )
        }
    } else if is_digit(c) {
        let end = digits_end(s, pos);
        if end < s.len() && s[end] == '.' && end + 1 < s.len() && is_digit(s[end + 1]) {
            let end2 = digits_end(s, end + 1);
            Ok(
                (
                    Some(
                        TokenV {
                            kind: TokenType::Number,
                            literal: number_value(s.subrange(pos, end2), true),
                        },
                    ),
                    end2,
                ),
            )
        } else {
            Ok(
                (
                    Some(
                        TokenV {
                            kind: TokenType::Number,
                            literal: number_value(s.subrange(pos, end), false),
                        },
                    ),
                    end,
                ),
            )
        }
    } else if is_alpha(c) {
        let end = word_end(s, pos);
        let word = s.subrange(pos, end);
        Ok((Some(TokenV { kind: spec_keyword(word), literal: LitV::Str(word) }), end))
    } else {
        Err(ScanError::UnknownChar(c))
    }
}

/// The token sequence of the input from `pos` on, ending with the synthetic
/// `End` token; or the error that stops the scan. The branch on the new
/// position only serves termination: a scanned token always advances.
pub open spec fn spec_scan(s: Seq<char>, pos: int) -> Result<Seq<TokenV>, ScanError>
    decreases s.len() - pos,
{
    if !(0 <= pos < s.len()) {
        Ok(seq![punct(TokenType::End)])
    } else {
        match spec_scan_token(s, pos) {
            Err(e) => Err(e),
            Ok((t, pos2)) => if pos < pos2 <= s.len() {
                match spec_scan(s, pos2) {
                    Err(e) => Err(e),
                    Ok(rest) => Ok(
                        match t {
                            Some(tok) => seq![tok] + rest,
                            None => rest,
                        },
                    ),
                }
            } else {
                Err(ScanError::UnterminatedString)
            },
        }
    }
}

/// A successful scan yields at least one token and closes with the `End`
/// token.
pub proof fn lemma_spec_scan_ends(s: Seq<char>, pos: int)
    ensures
        spec_scan(s, pos) matches Ok(ts) ==> ts.len() >= 1 && ts.last() == punct(TokenType::End),
    decreases s.len() - pos,
{
    if 0 <= pos < s.len() {
        match spec_scan_token(s, pos) {
            Ok((t, pos2)) => {
                if pos < pos2 <= s.len() {
                    lemma_spec_scan_ends(s, pos2);
                    match spec_scan(s, pos2) {
                        Ok(rest) => {
                            match t {
                                Some(tok) => {
                                    assert((seq![tok] + rest).last() == rest.last());
                                },
                                None => {},
                            }
                        },
                        Err(_) => {},
                    }
                }
            },
            Err(_) => {},
        }
    }
}

/// The views of a sequence of tokens.
pub open spec fn tokens_view(ts: Seq<Token>) -> Seq<TokenV> {
    ts.map_values(|t: Token| t@)
}

/// The whole scan's outcome, given tokens already read and the position the
/// scan has reached.
pub open spec fn scan_with_prefix(done: Seq<TokenV>, s: Seq<char>, pos: int) -> Result<
    Seq<TokenV>,
    ScanError,
> {
    match spec_scan(s, pos) {
        Ok(rest) => Ok(done + rest),
        Err(e) => Err(e),
    }
}

/// Source text held as characters, read left to right with lookahead.
pub struct Source {
    input: Vec<char>,
    pub position: usize,
}

impl Source {
    /// The characters of the input.
    pub closed spec fn text(&self) -> Seq<char> {
        self.input@
    }

    /// The current position, as a mathematical integer.
    pub closed spec fn at(&self) -> int {
        self.position as int
    }

    /// Holds the text of `input`, positioned at its start.
    pub fn new(input: String) -> (r: Self)
        ensures
            r.text() == input@,
            r.at() == 0,
    {
        let s = input.as_str();
        let n = s.unicode_len();
        let mut chars: Vec<char> = Vec::new();
        let mut i: usize = 0;
        while i < n
            invariant
                i <= n,
                n == s@.len(),
                s@ == input@,
                chars@ == input@.take(i as int),
            decreases n - i,
        {
            chars.push(s.get_char(i));
            proof {
                assert(input@.take(i as int).push(input@[i as int]) =~= input@.take(i + 1));
            }
            i = i + 1;
        }
        proof {
            assert(input@.take(input@.len() as int) =~= input@);
        }
        Source { input: chars, position: 0 }
    }

    /// Consumes and returns the character at the current position, or the
    /// NUL character at the end of the input.
    pub fn next(&mut self) -> (c: char)
        ensures
            final(self).text() == old(self).text(),
            old(self).at() < old(self).text().len() ==> c == old(self).text()[old(self).at()]
                && final(self).at() == old(self).at() + 1,
            old(self).at() >= old(self).text().len() ==> c == '\0' && final(self).at() == old(
                self,
            ).at(),
    {
        if self.is_at_end() {
            return '\0';
        }
        proof {
            assert(self.input@.len() == self.input.len());
            assert(self.position < self.input.len());
        }
        let c = self.input[self.position];
        self.position = self.position + 1;
        c
    }

    /// The character `offset` places ahead, or the NUL character past the
    /// end of the input; the position does not move.
    pub fn peek(&self, offset: usize) -> (c: char)
        ensures
            self.at() + offset < self.text().len() ==> c == self.text()[self.at() + offset],
            self.at() + offset >= self.text().len() ==> c == '\0',
    {
        if self.position >= self.input.len() || offset >= self.input.len() - self.position {
            return '\0';
        }
        self.input[self.position + offset]
    }

    /// The characters from `start` to `end` (or to the end of the input).
    pub fn slice(&self, start: usize, end: Option<usize>) -> (r: String)
        requires
            start <= (match end {
                Some(e) => e as int,
                None => self.text().len() as int,
            }) <= self.text().len(),
        ensures
            r@ == self.text().subrange(
                start as int,
                match end {
                    Some(e) => e as int,
                    None => self.text().len() as int,
                },
            ),
    {
        let chars = self.slice_chars(
            start,
            match end {
                Some(e) => e,
                None => self.input.len(),
            },
        );
        string_from_chars(&chars)
    }

    /// The characters from `start` to `end` as a vector.
    fn slice_chars(&self, start: usize, end: usize) -> (r: Vec<char>)
        requires
            start <= end <= self.text().len(),
        ensures
            r@ == self.text().subrange(start as int, end as int),
    {
        let mut out: Vec<char> = Vec::new();
        let mut i = start;
        while i < end
            invariant
                start <= i <= end <= self.input@.len(),
                out@ == self.input@.subrange(start as int, i as int),
            decreases end - i,
        {
            out.push(self.input[i]);
            proof {
                assert(self.input@.subrange(start as int, i as int).push(
                    self.input@[i as int],
                ) =~= self.input@.subrange(start as int, i + 1));
            }
            i = i + 1;
        }
        out
    }

    /// Whether the whole input has been consumed.
    pub fn is_at_end(&self) -> (b: bool)
        ensures
            b == (self.at() >= self.text().len()),
    {
        self.position >= self.input.len()
    }
}

/// The scanner: a source and the start position of the token being read.
pub struct Scanner {
    source: Source,
    start: usize,
}

impl Scanner {
    /// The characters being scanned.
    pub closed spec fn text(&self) -> Seq<char> {
        self.source.text()
    }

    /// The current position in the text.
    pub closed spec fn at(&self) -> int {
        self.source.position as int
    }

    /// The start position of the token being read.
    pub closed spec fn token_start(&self) -> int {
        self.start as int
    }

    /// A scanner over the given input, positioned at its start.
    pub fn new(input: String) -> (r: Self)
        ensures
            r.text() == input@,
            r.at() == 0,
    {
        Scanner { source: Source::new(input), start: 0 }
    }

    /// Scans the remaining input to its end: the tokens of `spec_scan`,
    /// closed by the `End` token, or the error that stopped the scan.
    pub fn scan(&mut self) -> (r: Result<Vec<Token>, ScanError>)
        ensures
            final(self).text() == old(self).text(),
            match r {
                Ok(tokens) => spec_scan(old(self).text(), old(self).at()) == Ok::<_, ScanError>(
                    tokens_view(tokens@),
                ),
                Err(e) => spec_scan(old(self).text(), old(self).at()) == Err::<Seq<TokenV>, _>(
                    e,
                ),
            },
    {
        let ghost text = self.text();
        let ghost pos0 = self.at();
        let mut tokens: Vec<Token> = Vec::new();
        proof {
            assert(tokens_view(tokens@) + spec_scan(text, pos0)->Ok_0 =~= spec_scan(
                text,
                pos0,
            )->Ok_0);
        }
        while !self.source.is_at_end()
            invariant
                old(self).text() == text,
                old(self).at() == pos0,
                self.text() == text,
                scan_with_prefix(tokens_view(tokens@), text, self.at()) == spec_scan(text, pos0),
            decreases text.len() - self.at(),
        {
            self.start = self.source.position;
            let ghost before = self.at();
            let ghost done = tokens_view(tokens@);
            let step = self.scan_token();
            match step {
                Err(e) => {
                    return Err(e);
                },
                Ok(opt) => {
                    match opt {
                        Some(t) => {
                            proof {
                                assert(tokens_view(tokens@.push(t)) =~= done.push(t@));
                                if spec_scan(text, self.at()) is Ok {
                                    let rest = spec_scan(text, self.at())->Ok_0;
                                    assert(spec_scan(text, before) == Ok::<_, ScanError>(
                                        seq![t@] + rest,
                                    ));
                                    assert(done + (seq![t@] + rest) =~= done.push(t@) + rest);
                                }
                            }
                            tokens.push(t);
                        },
                        None => {},
                    }
                },
            }
        }
        let end_token = Token::new(TokenType::End, None);
        proof {
            assert(spec_scan(text, self.at()) == Ok::<_, ScanError>(seq![punct(TokenType::End)]));
            assert(tokens_view(tokens@.push(end_token)) =~= tokens_view(tokens@) + seq![
                punct(TokenType::End),
            ]);
        }
        tokens.push(end_token);
        Ok(tokens)
    }

    /// Reads one token at the current position: `spec_scan_token`'s step.
    /// Whitespace produces no token; the `start` field must sit at the
    /// current position, as `scan` places it.
    pub fn scan_token(&mut self) -> (r: Result<Option<Token>, ScanError>)
        requires
            old(self).token_start() == old(self).at(),
            0 <= old(self).at() < old(self).text().len(),
        ensures
            final(self).text() == old(self).text(),
            match r {
                Ok(t) => spec_scan_token(old(self).text(), old(self).at()) == Ok::<_, ScanError>(
                    (
                        match t {
                            Some(tok) => Some(tok@),
                            None => None::<TokenV>,
                        },
                        final(self).at(),
                    ),
                ) && old(self).at() < final(self).at() <= old(self).text().len(),
                Err(e) => spec_scan_token(old(self).text(), old(self).at()) == Err::<
                    (Option<TokenV>, int),
                    _,
                >(e),
            },
    {
        let ghost text = self.text();
        let ghost pos = self.at();
        let c = self.source.next();
        match c {
            ' ' | '\t' | '\r' | '\n' => Ok(None),
            ';' => Ok(Some(Token::new(TokenType::Semicolon, None))),
            '(' => Ok(Some(Token::new(TokenType::LeftParen, None))),
            ')' => Ok(Some(Token::new(TokenType::RightParen, None))),
            '{' => Ok(Some(Token::new(TokenType::LeftBrace, None))),
            '}' => Ok(Some(Token::new(TokenType::RightBrace, None))),
            '+' => Ok(Some(Token::new(TokenType::Plus, None))),
            '-' => Ok(Some(Token::new(TokenType::Minus, None))),
            '/' => Ok(Some(Token::new(TokenType::Slash, None))),
            '=' => Ok(Some(Token::new(TokenType::Equal, None))),
            '!' => Ok(Some(Token::new(TokenType::Bang, None))),
            '*' => {
                if self.source.peek(0) == '*' {
                    self.source.next();
                    Ok(Some(Token::new(TokenType::StarStar, None)))
                } else {
                    Ok(Some(Token::new(TokenType::Star, None)))
                }
            },
            '"' => self.finish_string(),
            c => {
                if check_digit(c) {
                    Ok(Some(self.finish_number()))
                } else if check_alpha(c) {
                    Ok(Some(self.finish_word()))
                } else {
                    Err(ScanError::UnknownChar(c))
                }
            },
        }
    }

    /// Reads the rest of a string literal; the opening quote is consumed.
    fn finish_string(&mut self) -> (r: Result<Option<Token>, ScanError>)
        requires
            old(self).token_start() == old(self).at() - 1,
            1 <= old(self).at() <= old(self).text().len(),
            old(self).text()[old(self).at() - 1] == '"',
        ensures
            final(self).text() == old(self).text(),
            match r {
                Ok(t) => spec_scan_token(old(self).text(), old(self).at() - 1) == Ok::<
                    _,
                    ScanError,
                >(
                    (
                        match t {
                            Some(tok) => Some(tok@),
                            None => None::<TokenV>,
                        },
                        final(self).at(),
                    ),
                ) && old(self).at() - 1 < final(self).at() <= old(self).text().len(),
                Err(e) => spec_scan_token(old(self).text(), old(self).at() - 1) == Err::<
                    (Option<TokenV>, int),
                    _,
                >(e),
            },
    {
        let ghost text = self.text();
        let ghost open = self.at() - 1;
        proof {
            lemma_string_end(text, open + 1);
        }
        while self.source.peek(0) != '"' && !self.source.is_at_end()
            invariant
                self.text() == text,
                self.token_start() == open,
                open + 1 <= self.at() <= text.len(),
                string_end(text, open + 1) == string_end(text, self.at()),
            decreases text.len() - self.at(),
        {
            self.source.next();
        }
        if self.source.is_at_end() {
            return Err(ScanError::UnterminatedString);
        }
        proof {
            assert(string_end(text, self.at()) == self.at());
        }
        self.source.next();
        let content = self.source.slice_chars(self.start + 1, self.source.position - 1);
        let value = string_from_chars(&content);
        Ok(Some(Token::new(TokenType::Str, Some(Literal::Str(value)))))
    }

    /// Reads the rest of a number literal; its first digit is consumed.
    fn finish_number(&mut self) -> (t: Token)
        requires
            old(self).token_start() == old(self).at() - 1,
            1 <= old(self).at() <= old(self).text().len(),
            is_digit(old(self).text()[old(self).at() - 1]),
        ensures
            final(self).text() == old(self).text(),
            spec_scan_token(old(self).text(), old(self).at() - 1) == Ok::<_, ScanError>(
                (Some(t@), final(self).at()),
            ),
            old(self).at() - 1 < final(self).at() <= old(self).text().len(),
    {
        let ghost text = self.text();
        let ghost first = self.at() - 1;
        proof {
            lemma_digits_end(text, first);
            assert(digits_end(text, first) == digits_end(text, first + 1));
        }
        self.run_digits();
        let fractional = self.source.peek(0) == '.' && {
            let d = self.source.peek(1);
            check_digit(d)
        };
        if fractional {
            self.source.next();
            proof {
                lemma_digits_end(text, self.at());
            }
            self.run_digits();
            let token = Token::new(TokenType::Number, Some(Literal::Number(0)));
            proof {
                assert(spec_scan_token(text, first) == Ok::<_, ScanError>(
                    (
                        Some(
                            TokenV {
                                kind: TokenType::Number,
                                literal: number_value(
                                    text.subrange(first, self.at()),
                                    true,
                                ),
                            },
                        ),
                        self.at(),
                    ),
                ));
            }
            token
        } else {
            let digits = self.source.slice_chars(self.start, self.source.position);
            let value = parse_digits(&digits);
            proof {
                let end = digits_end(text, first);
                assert(self.at() == end);
                assert(!(end < text.len() && text[end] == '.' && end + 1 < text.len()
                    && is_digit(text[end + 1])));
            }
            Token::new(TokenType::Number, Some(Literal::Number(value)))
        }
    }

    /// Consumes the run of digits at the current position.
    fn run_digits(&mut self)
        requires
            0 <= old(self).at() <= old(self).text().len(),
        ensures
            final(self).text() == old(self).text(),
            final(self).token_start() == old(self).token_start(),
            final(self).at() == digits_end(old(self).text(), old(self).at()),
            old(self).at() <= final(self).at() <= old(self).text().len(),
    {
        let ghost text = self.text();
        let ghost pos0 = self.at();
        proof {
            lemma_digits_end(text, pos0);
        }
        while check_digit(self.source.peek(0)) && !self.source.is_at_end()
            invariant
                self.text() == text,
                self.token_start() == old(self).token_start(),
                pos0 <= self.at() <= text.len(),
                digits_end(text, pos0) == digits_end(text, self.at()),
            decreases text.len() - self.at(),
        {
            self.source.next();
        }
        proof {
            assert(digits_end(text, self.at()) == self.at());
        }
    }

    /// Reads the rest of a keyword or identifier; its first letter is
    /// consumed.
    fn finish_word(&mut self) -> (t: Token)
        requires
            old(self).token_start() == old(self).at() - 1,
            1 <= old(self).at() <= old(self).text().len(),
            is_alpha(old(self).text()[old(self).at() - 1]),
        ensures
            final(self).text() == old(self).text(),
            spec_scan_token(old(self).text(), old(self).at() - 1) == Ok::<_, ScanError>(
                (Some(t@), final(self).at()),
            ),
            old(self).at() - 1 < final(self).at() <= old(self).text().len(),
    {
        let ghost text = self.text();
        let ghost first = self.at() - 1;
        proof {
            lemma_word_end(text, first);
            assert(word_end(text, first) == word_end(text, self.at()));
        }
        while check_alnum(self.source.peek(0))
            invariant
                self.text() == text,
                self.token_start() == first,
                first + 1 <= self.at() <= text.len(),
                word_end(text, first) == word_end(text, self.at()),
            decreases text.len() - self.at(),
        {
            self.source.next();
        }
        proof {
            assert(word_end(text, self.at()) == self.at());
        }
        let chars = self.source.slice_chars(self.start, self.source.position);
        let kind = keyword_kind(&chars);
        let value = string_from_chars(&chars);
        Token::new(kind, Some(Literal::Str(value)))
    }
}

/// The number a digit string denotes, when it fits the language's number
/// range; zero otherwise, as a failed parse defaults to zero.
fn parse_digits(digits: &Vec<char>) -> (v: i64)
    requires
        forall|j: int| 0 <= j < digits@.len() ==> is_digit(#[trigger] digits@[j]),
    ensures
        LitV::Num(v as int) == number_value(digits@, false),
{
    let mut acc: u64 = 0;
    let mut i: usize = 0;
    let mut over = false;
    while i < digits.len()
        invariant
            i <= digits@.len(),
            forall|j: int| 0 <= j < digits@.len() ==> is_digit(#[trigger] digits@[j]),
            !over ==> acc as nat == digits_value(digits@.take(i as int)) && acc <= i64::MAX
                as u64,
            over ==> digits_value(digits@.take(i as int)) > i64::MAX,
        decreases digits@.len() - i,
    {
        let c = digits[i];
        let d: u64 = digit_of(c);
        proof {
            assert(digits@.take(i + 1).drop_last() =~= digits@.take(i as int));
            assert(digits@.take(i + 1).last() == digits@[i as int]);
            assert(digits_value(digits@.take(i + 1)) == digits_value(digits@.take(i as int))
                * 10 + (d as nat));
        }
        if over {
            proof {
                crate::text::lemma_digits_value_extend(digits@.take(i + 1));
            }
        } else {
            if acc > (i64::MAX as u64 - d) / 10 {
                over = true;
                proof {
                    assert(acc * 10 + d > i64::MAX as u64) by (nonlinear_arith)
                        requires
                            acc > (i64::MAX as u64 - d) / 10 && d <= 9 && acc >= 0,
                    {
                        vstd::arithmetic::div_mod::lemma_fundamental_div_mod(
                            (i64::MAX as u64 - d) as int,
                            10,
                        );
                    }
                }
            } else {
                proof {
                    assert(acc * 10 + d <= i64::MAX as u64) by (nonlinear_arith)
                        requires
                            acc <= (i64::MAX as u64 - d) / 10 && d <= 9 && acc >= 0,
                    {
                        vstd::arithmetic::div_mod::lemma_fundamental_div_mod(
                            (i64::MAX as u64 - d) as int,
                            10,
                        );
                    }
                }
                acc = acc * 10 + d;
            }
        }
        i = i + 1;
    }
    proof {
        assert(digits@.take(digits@.len() as int) =~= digits@);
    }
    if over {
        0
    } else {
        acc as i64
    }
}

/// The numeric value of a digit character.
fn digit_of(c: char) -> (d: u64)
    requires
        is_digit(c),
    ensures
        d == crate::text::digit_val(c),
        d <= 9,
{
    if c == '0' {
        0
    } else if c == '1' {
        1
    } else if c == '2' {
        2
    } else if c == '3' {
        3
    } else if c == '4' {
        4
    } else if c == '5' {
        5
    } else if c == '6' {
        6
    } else if c == '7' {
        7
    } else if c == '8' {
        8
    } else {
        9
    }
}

} // verus!
