//! A second tokenizer of the text format, which keeps numbers and strings
//! as text, and a cursor with which tokens are cut off bytes.
use vstd::prelude::*;
use vstd::string::StringSliceAdditionalSpecFns;
use vstd::utf8::{decode_utf8, valid_utf8};
use crate::parser::string_from_utf8;
use crate::text::token::{
    is_letter, parse_longest, spec_at, spec_is_digit, spec_is_letter, spec_longest, spec_run_end,
    spec_text, spec_token, Lexer, Run, Token as Lexeme, TokenView as LexemeView,
    TokenizeError as LexError,
};

verus! {

/// A token of the text format; numbers and strings are kept as they are
/// written.
#[derive(Debug, PartialEq, Eq)]
pub enum Token {
    LeftParen,
    RightParen,
    Atom(String),
    Text(String),
    Number(String),
    Name(String),
    Comment(String),
}

/// A token as a value.
pub enum TokenView {
    LeftParen,
    RightParen,
    Atom(Seq<char>),
    Text(Seq<char>),
    Number(Seq<char>),
    Name(Seq<char>),
    Comment(Seq<char>),
}

impl Token {
    pub open spec fn deep(self) -> TokenView {
        match self {
            Token::LeftParen => TokenView::LeftParen,
            Token::RightParen => TokenView::RightParen,
            Token::Atom(s) => TokenView::Atom(s@),
            Token::Text(s) => TokenView::Text(s@),
            Token::Number(s) => TokenView::Number(s@),
            Token::Name(s) => TokenView::Name(s@),
            Token::Comment(s) => TokenView::Comment(s@),
        }
    }
}

#[derive(Debug, Copy, Clone, PartialEq, Eq, Structural)]
pub enum TokenizeError {
    /// Bytes that should spell text are not UTF-8.
    UnknownError,
    FailedExpectedToken,
    UnexpectedNextChar(u8),
}

/// The error of this tokenizer that an error of the lexer stands for.
pub open spec fn spec_error(e: LexError) -> TokenizeError {
    match e {
        LexError::UnknownError => TokenizeError::UnknownError,
        LexError::FailedExpectedToken => TokenizeError::FailedExpectedToken,
        LexError::UnexpectedNextChar(c) => TokenizeError::UnexpectedNextChar(c),
        LexError::UnexpectedEof => TokenizeError::FailedExpectedToken,
        LexError::NumberOutOfRange => TokenizeError::FailedExpectedToken,
    }
}

pub fn error(e: LexError) -> (r: TokenizeError)
    ensures
        r == spec_error(e),
{
    match e {
        LexError::UnknownError => TokenizeError::UnknownError,
        LexError::FailedExpectedToken => TokenizeError::FailedExpectedToken,
        LexError::UnexpectedNextChar(c) => TokenizeError::UnexpectedNextChar(c),
        LexError::UnexpectedEof => TokenizeError::FailedExpectedToken,
        LexError::NumberOutOfRange => TokenizeError::FailedExpectedToken,
    }
}

/// The classes of bytes that the cursor accepts in runs.
#[derive(Debug, Copy, Clone, PartialEq, Eq, Structural)]
pub enum Class {
    /// A decimal digit.
    Digit,
    /// A decimal digit or an underscore.
    NumberChar,
    /// A letter.
    Letter,
    /// A letter, a digit, or one of `_ . + - * /`.
    NameChar,
}

/// Whether a byte is of a class.
pub open spec fn spec_in_class(class: Class, c: u8) -> bool {
    match class {
        Class::Digit => spec_is_digit(c),
        Class::NumberChar => spec_is_digit(c) || c == 0x5F,
        Class::Letter => spec_is_letter(c),
        Class::NameChar => spec_is_letter(c) || spec_is_digit(c) || c == 0x5F || c == 0x2E || c
            == 0x2B || c == 0x2D || c == 0x2A || c == 0x2F,
    }
}

pub fn in_class(class: Class, c: u8) -> (r: bool)
    ensures
        r == spec_in_class(class, c),
{
    let digit = 0x30 <= c && c <= 0x39;
    match class {
        Class::Digit => digit,
        Class::NumberChar => digit || c == 0x5F,
        Class::Letter => is_letter(c),
        Class::NameChar => is_letter(c) || digit || c == 0x5F || c == 0x2E || c == 0x2B || c == 0x2D
            || c == 0x2A || c == 0x2F,
    }
}

/// The end of the longest run of bytes of a class from `pos` on.
pub open spec fn spec_class_end(input: Seq<u8>, pos: int, class: Class) -> int
    decreases input.len() - pos,
{
    if 0 <= pos < input.len() && spec_in_class(class, input[pos]) {
        spec_class_end(input, pos + 1, class)
    } else {
        pos
    }
}

/// The position after the byte `c` at `pos`, or `pos` if another byte
/// stands there.
pub open spec fn spec_after_char(input: Seq<u8>, pos: int, c: u8) -> int {
    if 0 <= pos < input.len() && input[pos] == c {
        pos + 1
    } else {
        pos
    }
}

/// The position after one of two bytes at `pos`, or `pos`.
pub open spec fn spec_after_either(input: Seq<u8>, pos: int, a: u8, b: u8) -> int {
    if 0 <= pos < input.len() && (input[pos] == a || input[pos] == b) {
        pos + 1
    } else {
        pos
    }
}

/// The end of a number that begins at `pos`: a sign if any, `0x` if any,
/// digits and underscores, then a point with digits and underscores if
/// any, then `e` or `E` with digits and underscores if any.
pub open spec fn spec_number_end(input: Seq<u8>, pos: int) -> int {
    let a = spec_after_either(input, pos, 0x2B, 0x2D);
    let b = spec_after_char(input, a, 0x30);
    let c = if b > a {
        spec_after_char(input, b, 0x78)
    } else {
        b
    };
    let d = spec_class_end(input, c, Class::NumberChar);
    let e = spec_after_char(input, d, 0x2E);
    let f = if e > d {
        spec_class_end(input, e, Class::NumberChar)
    } else {
        e
    };
    let g = spec_after_either(input, f, 0x65, 0x45);
    if g > f {
        spec_class_end(input, g, Class::NumberChar)
    } else {
        g
    }
}

/// A cursor over bytes: `input` is what has not been cut off, and `pos`
/// is how many of its bytes belong to the token that is being read.
#[derive(Debug)]
pub struct GostyleTokenizer<'s> {
    pub input: &'s [u8],
    pub pos: usize,
}

#[allow(non_snake_case)]
impl<'s> GostyleTokenizer<'s> {
    /// The positions that a cursor can be at.
    pub open spec fn wf(&self) -> bool {
        self.pos <= self.input@.len()
    }

    /// Cuts the token off the input and returns it.
    pub fn emit(&mut self) -> (tok: &'s [u8])
        requires
            old(self).wf(),
        ensures
            tok@ == old(self).input@.take(old(self).pos as int),
            final(self).input@ == old(self).input@.skip(old(self).pos as int),
            final(self).pos == 0,
    {
        let (tok, rest) = self.input.split_at(self.pos);
        self.input = rest;
        self.pos = 0;
        tok
    }

    /// Cuts the token off the input and drops it.
    pub fn skip(&mut self)
        requires
            old(self).wf(),
        ensures
            final(self).input@ == old(self).input@.skip(old(self).pos as int),
            final(self).pos == 0,
    {
        let (_, rest) = self.input.split_at(self.pos);
        self.input = rest;
        self.pos = 0;
    }

    /// The input after the token.
    pub fn current(&self) -> (cur: &'s [u8])
        requires
            self.wf(),
        ensures
            cur@ == self.input@.skip(self.pos as int),
    {
        let (_, cur) = self.input.split_at(self.pos);
        cur
    }

    /// Takes the byte `c` into the token if it stands next.
    pub fn acceptChar(&mut self, c: u8) -> (r: bool)
        requires
            old(self).wf(),
        ensures
            final(self).input == old(self).input,
            final(self).wf(),
            final(self).pos == spec_after_char(old(self).input@, old(self).pos as int, c),
            r == (final(self).pos > old(self).pos),
    {
        if self.pos < self.input.len() && self.input[self.pos] == c {
            self.pos = self.pos + 1;
            true
        } else {
            false
        }
    }

    /// Takes the byte `c` into the token, or fails.
    pub fn expectChar(&mut self, c: u8) -> (r: Result<(), TokenizeError>)
        requires
            old(self).wf(),
        ensures
            final(self).input == old(self).input,
            final(self).wf(),
            final(self).pos == spec_after_char(old(self).input@, old(self).pos as int, c),
            r == if final(self).pos > old(self).pos {
                Ok::<(), TokenizeError>(())
            } else {
                Err::<(), TokenizeError>(TokenizeError::FailedExpectedToken)
            },
    {
        if self.acceptChar(c) {
            Ok(())
        } else {
            Err(TokenizeError::FailedExpectedToken)
        }
    }

    /// Takes the next byte into the token if it is one of `variants`.
    pub fn accept(&mut self, variants: &[u8]) -> (r: bool)
        requires
            old(self).wf(),
        ensures
            final(self).input == old(self).input,
            final(self).wf(),
            r == (old(self).pos < old(self).input@.len() && variants@.contains(
                old(self).input@[old(self).pos as int],
            )),
            final(self).pos == if r {
                old(self).pos + 1
            } else {
                old(self).pos as int
            },
    {
        if self.pos >= self.input.len() {
            return false;
        }
        let c = self.input[self.pos];
        let mut i: usize = 0;
        while i < variants.len()
            invariant
                i <= variants@.len(),
                self.pos < self.input@.len() <= usize::MAX,
                self.input == old(self).input,
                self.pos == old(self).pos,
                c == self.input@[self.pos as int],
                forall|j: int| 0 <= j < i ==> variants@[j] != c,
            decreases variants@.len() - i,
        {
            if variants[i] == c {
                self.pos = self.pos + 1;
                return true;
            }
            i = i + 1;
        }
        false
    }

    /// Takes the next byte into the token if it is one of `variants`, or
    /// fails.
    pub fn expect(&mut self, variants: &[u8]) -> (r: Result<(), TokenizeError>)
        requires
            old(self).wf(),
        ensures
            final(self).input == old(self).input,
            final(self).wf(),
            r is Ok == (old(self).pos < old(self).input@.len() && variants@.contains(
                old(self).input@[old(self).pos as int],
            )),
            r is Err ==> r == Err::<(), TokenizeError>(TokenizeError::FailedExpectedToken),
            final(self).pos == if r is Ok {
                old(self).pos + 1
            } else {
                old(self).pos as int
            },
    {
        if self.accept(variants) {
            Ok(())
        } else {
            Err(TokenizeError::FailedExpectedToken)
        }
    }

    /// Takes the next byte into the token if it is of the class.
    pub fn accept_class(&mut self, class: Class) -> (r: bool)
        requires
            old(self).wf(),
        ensures
            final(self).input == old(self).input,
            final(self).wf(),
            r == (old(self).pos < old(self).input@.len() && spec_in_class(
                class,
                old(self).input@[old(self).pos as int],
            )),
            final(self).pos == if r {
                old(self).pos + 1
            } else {
                old(self).pos as int
            },
    {
        if self.pos < self.input.len() && in_class(class, self.input[self.pos]) {
            self.pos = self.pos + 1;
            true
        } else {
            false
        }
    }

    /// Takes a digit into the token if one stands next.
    pub fn acceptDigit(&mut self) -> (r: bool)
        requires
            old(self).wf(),
        ensures
            final(self).input == old(self).input,
            final(self).wf(),
            r == (old(self).pos < old(self).input@.len() && spec_is_digit(
                old(self).input@[old(self).pos as int],
            )),
            final(self).pos == if r {
                old(self).pos + 1
            } else {
                old(self).pos as int
            },
    {
        self.accept_class(Class::Digit)
    }

    /// Takes a letter into the token if one stands next.
    pub fn acceptLetter(&mut self) -> (r: bool)
        requires
            old(self).wf(),
        ensures
            final(self).input == old(self).input,
            final(self).wf(),
            r == (old(self).pos < old(self).input@.len() && spec_is_letter(
                old(self).input@[old(self).pos as int],
            )),
            final(self).pos == if r {
                old(self).pos + 1
            } else {
                old(self).pos as int
            },
    {
        self.accept_class(Class::Letter)
    }

    /// Takes a byte of a name into the token if one stands next.
    pub fn acceptNameChar(&mut self) -> (r: bool)
        requires
            old(self).wf(),
        ensures
            final(self).input == old(self).input,
            final(self).wf(),
            r == (old(self).pos < old(self).input@.len() && spec_in_class(
                Class::NameChar,
                old(self).input@[old(self).pos as int],
            )),
            final(self).pos == if r {
                old(self).pos + 1
            } else {
                old(self).pos as int
            },
    {
        self.accept_class(Class::NameChar)
    }

    /// Takes the longest run of bytes of the class into the token.
    pub fn accept_run(&mut self, class: Class)
        requires
            old(self).wf(),
        ensures
            final(self).input == old(self).input,
            final(self).wf(),
            final(self).pos == spec_class_end(old(self).input@, old(self).pos as int, class),
            final(self).pos >= old(self).pos,
    {
        loop
            invariant
                self.wf(),
                self.input == old(self).input,
                self.pos >= old(self).pos,
                spec_class_end(old(self).input@, old(self).pos as int, class) == spec_class_end(
                    self.input@,
                    self.pos as int,
                    class,
                ),
            decreases self.input@.len() - self.pos,
        {
            if !self.accept_class(class) {
                return ;
            }
        }
    }

    /// Takes a name into the token: `$` and the bytes of the name.
    pub fn expectName(&mut self) -> (r: Result<(), TokenizeError>)
        requires
            old(self).wf(),
        ensures
            final(self).input == old(self).input,
            final(self).wf(),
            if old(self).pos < old(self).input@.len() && old(self).input@[old(self).pos as int]
                == 0x24 {
                r is Ok && final(self).pos == spec_class_end(
                    old(self).input@,
                    old(self).pos + 1,
                    Class::NameChar,
                )
            } else {
                r == Err::<(), TokenizeError>(TokenizeError::FailedExpectedToken) && final(self).pos == old(self).pos
            },
    {
        self.expectChar(0x24)?;
        self.accept_run(Class::NameChar);
        Ok(())
    }

    /// Takes a number into the token, which must be empty before.
    pub fn expectNumber(&mut self) -> (r: Result<(), TokenizeError>)
        requires
            old(self).wf(),
        ensures
            final(self).input == old(self).input,
            final(self).wf(),
            final(self).pos == spec_number_end(old(self).input@, old(self).pos as int),
            r == if final(self).pos == 0 {
                Err::<(), TokenizeError>(TokenizeError::FailedExpectedToken)
            } else {
                Ok::<(), TokenizeError>(())
            },
    {
        if !self.acceptChar(0x2B) {
            let _ = self.acceptChar(0x2D);
        }
        if self.acceptChar(0x30) {
            let _ = self.acceptChar(0x78);
        }
        self.accept_run(Class::NumberChar);
        if self.acceptChar(0x2E) {
            self.accept_run(Class::NumberChar);
        }
        let exponent = if self.acceptChar(0x65) {
            true
        } else {
            self.acceptChar(0x45)
        };
        if exponent {
            self.accept_run(Class::NumberChar);
        }
        if self.pos == 0 {
            return Err(TokenizeError::FailedExpectedToken);
        }
        Ok(())
    }
}

/// The token of this tokenizer that a token of the lexer, read from
/// `from` to `to`, stands for: a number is the text that spells it, `=` is
/// no token, and whitespace is passed over.
pub open spec fn spec_convert(input: Seq<u8>, t: LexemeView, from: int, to: int) -> Result<
    Option<TokenView>,
    TokenizeError,
> {
    match t {
        LexemeView::LeftParen => Ok(Some(TokenView::LeftParen)),
        LexemeView::RightParen => Ok(Some(TokenView::RightParen)),
        LexemeView::Atom(s) => Ok(Some(TokenView::Atom(s))),
        LexemeView::Name(s) => Ok(Some(TokenView::Name(s))),
        LexemeView::Comment(s) => Ok(Some(TokenView::Comment(s))),
        LexemeView::Text(b) => if valid_utf8(b) {
            Ok(Some(TokenView::Text(decode_utf8(b))))
        } else {
            Err(TokenizeError::UnknownError)
        },
        LexemeView::Nat(_) | LexemeView::Int(_) | LexemeView::Float(_) => match spec_text(
            input,
            from,
            to,
        ) {
            Ok(text) => Ok(Some(TokenView::Number(text))),
            Err(e) => Err(spec_error(e)),
        },
        LexemeView::Equal => Err(TokenizeError::UnexpectedNextChar(0x3D)),
        LexemeView::Whitespace => Ok(None),
    }
}

/// The tokens of the input from `pos` on.
pub open spec fn spec_tokens(input: Seq<u8>, pos: int) -> Result<Seq<TokenView>, TokenizeError>
    decreases input.len() - pos,
{
    if pos < 0 || pos >= input.len() {
        Ok(Seq::empty())
    } else {
        match spec_token(input, pos) {
            Err(e) => Err(spec_error(e)),
            Ok((t, q)) => match spec_convert(input, t, pos, q) {
                Err(e) => Err(e),
                Ok(x) => if q <= pos || q > input.len() {
                    Err(TokenizeError::UnknownError)
                } else {
                    match spec_tokens(input, q) {
                        Err(e) => Err(e),
                        Ok(rest) => Ok(
                            match x {
                                Some(t) => seq![t] + rest,
                                None => rest,
                            },
                        ),
                    }
                },
            },
        }
    }
}

/// The token with which the input begins, if it begins with the byte
/// `first`, and how many bytes the token takes; `None` for whitespace.
pub open spec fn spec_try(input: Seq<u8>, first: Option<u8>) -> Result<(Option<TokenView>, int), TokenizeError> {
    if input.len() == 0 || (first matches Some(c) && input[0] != c) {
        Err(TokenizeError::FailedExpectedToken)
    } else {
        match spec_token(input, 0) {
            Err(e) => Err(spec_error(e)),
            Ok((t, q)) => match spec_convert(input, t, 0, q) {
                Err(e) => Err(e),
                Ok(v) => Ok((v, q)),
            },
        }
    }
}

/// The token with which the input begins, as `spec_try` gives it, where
/// whitespace is no token.
pub open spec fn spec_try_token(input: Seq<u8>, first: Option<u8>) -> Result<(TokenView, int), TokenizeError> {
    match spec_try(input, first) {
        Err(e) => Err(e),
        Ok((Some(t), q)) => Ok((t, q)),
        Ok((None, _)) => Err(TokenizeError::FailedExpectedToken),
    }
}

/// The tokenizer: what is left of the input.
#[derive(Debug)]
pub struct Tokenizer<'s> {
    pub input: &'s [u8],
}

impl<'s> Tokenizer<'s> {
    /// Drops the whitespace with which the input begins.
    pub fn skip_whitespace(&mut self)
        ensures
            final(self).input@ == old(self).input@.skip(
                spec_run_end(old(self).input@, 0, Run::Space),
            ),
    {
        let mut lexer = Lexer::new(self.input);
        lexer.skip_run(Run::Space);
        let (_, rest) = self.input.split_at(lexer.pos);
        self.input = rest;
    }

    /// Drops the bytes of `pat` with which the input begins, or fails.
    pub fn expect(&mut self, pat: &str) -> (r: Result<(), TokenizeError>)
        ensures
            if spec_at(old(self).input@, 0, pat.spec_bytes()) {
                r is Ok && final(self).input@ == old(self).input@.skip(
                    pat.spec_bytes().len() as int,
                )
            } else {
                r == Err::<(), TokenizeError>(TokenizeError::FailedExpectedToken) && final(self).input == old(self).input
            },
    {
        let mut lexer = Lexer::new(self.input);
        if lexer.accept_string(pat) {
            let (_, rest) = self.input.split_at(lexer.pos);
            self.input = rest;
            Ok(())
        } else {
            Err(TokenizeError::FailedExpectedToken)
        }
    }

    /// Turns a token of the lexer into a token of this tokenizer.
    pub fn convert(input: &[u8], t: Lexeme, from: usize, to: usize) -> (r: Result<
        Option<Token>,
        TokenizeError,
    >)
        ensures
            match spec_convert(input@, t.deep(), from as int, to as int) {
                Ok(Some(v)) => r matches Ok(Some(x)) && x.deep() == v,
                Ok(None) => r matches Ok(None),
                Err(e) => r matches Err(x) && x == e,
            },
    {
        match t {
            Lexeme::LeftParen => Ok(Some(Token::LeftParen)),
            Lexeme::RightParen => Ok(Some(Token::RightParen)),
            Lexeme::Atom(s) => Ok(Some(Token::Atom(s))),
            Lexeme::Name(s) => Ok(Some(Token::Name(s))),
            Lexeme::Comment(s) => Ok(Some(Token::Comment(s))),
            Lexeme::Text(b) => match string_from_utf8(b.0) {
                Some(s) => Ok(Some(Token::Text(s))),
                None => Err(TokenizeError::UnknownError),
            },
            Lexeme::Nat(_) | Lexeme::Int(_) | Lexeme::Float(_) => {
                let lexer = Lexer::new(input);
                match lexer.text(from, to) {
                    Ok(text) => Ok(Some(Token::Number(text))),
                    Err(e) => Err(error(e)),
                }
            },
            Lexeme::Equal => Err(TokenizeError::UnexpectedNextChar(0x3D)),
            Lexeme::Whitespace => Ok(None),
        }
    }

    /// Reads the token with which the input begins, if it begins with the
    /// byte `first`, and drops it from the input.
    pub fn try_token(&mut self, first: Option<u8>) -> (r: Result<Option<Token>, TokenizeError>)
        ensures
            match spec_try(old(self).input@, first) {
                Err(e) => r matches Err(x) && x == e,
                Ok((v, q)) => r matches Ok(x) && (match v {
                    Some(y) => x matches Some(z) && z.deep() == y,
                    None => x is None,
                }) && 0 <= q <= old(self).input@.len() && final(self).input@ == old(self).input@.skip(
                    q,
                ),
            },
    {
        let input = self.input;
        if input.len() == 0 {
            return Err(TokenizeError::FailedExpectedToken);
        }
        if let Some(c) = first {
            if input[0] != c {
                return Err(TokenizeError::FailedExpectedToken);
            }
        }
        let mut lexer = Lexer::new(input);
        let lexeme = match lexer.token() {
            Err(e) => {
                return Err(error(e));
            },
            Ok(None) => {
                return Err(TokenizeError::FailedExpectedToken);
            },
            Ok(Some(t)) => t,
        };
        let token = Self::convert(input, lexeme, 0, lexer.pos)?;
        let (_, rest) = input.split_at(lexer.pos);
        self.input = rest;
        Ok(token)
    }

    /// Reads the token with which the input begins, which is no
    /// whitespace, if the input begins with the byte `first`.
    pub fn try_kind(&mut self, first: u8) -> (r: Result<Token, TokenizeError>)
        ensures
            match spec_try_token(old(self).input@, Some(first)) {
                Err(e) => r matches Err(x) && x == e,
                Ok((v, q)) => r matches Ok(x) && x.deep() == v && 0 <= q <= old(self).input@.len()
                    && final(self).input@ == old(self).input@.skip(q),
            },
    {
        match self.try_token(Some(first))? {
            Some(t) => Ok(t),
            None => Err(TokenizeError::FailedExpectedToken),
        }
    }

    /// Reads `(`.
    pub fn try_left_paren(&mut self) -> (r: Result<Token, TokenizeError>)
        ensures
            match spec_try_token(old(self).input@, Some(0x28u8)) {
                Err(e) => r matches Err(x) && x == e,
                Ok((v, q)) => r matches Ok(x) && x.deep() == v && 0 <= q <= old(self).input@.len()
                    && final(self).input@ == old(self).input@.skip(q),
            },
    {
        self.try_kind(0x28)
    }

    /// Reads `)`.
    pub fn try_right_paren(&mut self) -> (r: Result<Token, TokenizeError>)
        ensures
            match spec_try_token(old(self).input@, Some(0x29u8)) {
                Err(e) => r matches Err(x) && x == e,
                Ok((v, q)) => r matches Ok(x) && x.deep() == v && 0 <= q <= old(self).input@.len()
                    && final(self).input@ == old(self).input@.skip(q),
            },
    {
        self.try_kind(0x29)
    }

    /// Reads a name.
    pub fn try_name(&mut self) -> (r: Result<Token, TokenizeError>)
        ensures
            match spec_try_token(old(self).input@, Some(0x24u8)) {
                Err(e) => r matches Err(x) && x == e,
                Ok((v, q)) => r matches Ok(x) && x.deep() == v && 0 <= q <= old(self).input@.len()
                    && final(self).input@ == old(self).input@.skip(q),
            },
    {
        self.try_kind(0x24)
    }

    /// Reads a string.
    pub fn try_string(&mut self) -> (r: Result<Token, TokenizeError>)
        ensures
            match spec_try_token(old(self).input@, Some(0x22u8)) {
                Err(e) => r matches Err(x) && x == e,
                Ok((v, q)) => r matches Ok(x) && x.deep() == v && 0 <= q <= old(self).input@.len()
                    && final(self).input@ == old(self).input@.skip(q),
            },
    {
        self.try_kind(0x22)
    }

    /// Reads a comment that begins with `;`.
    pub fn try_comment(&mut self) -> (r: Result<Token, TokenizeError>)
        ensures
            match spec_try_token(old(self).input@, Some(0x3Bu8)) {
                Err(e) => r matches Err(x) && x == e,
                Ok((v, q)) => r matches Ok(x) && x.deep() == v && 0 <= q <= old(self).input@.len()
                    && final(self).input@ == old(self).input@.skip(q),
            },
    {
        self.try_kind(0x3B)
    }

    /// Reads an atom.
    pub fn try_atom(&mut self) -> (r: Result<Token, TokenizeError>)
        ensures
            if old(self).input@.len() == 0 || !spec_is_letter(old(self).input@[0]) {
                r matches Err(x) && x == TokenizeError::FailedExpectedToken && final(self).input
                    == old(self).input
            } else {
                match spec_try_token(old(self).input@, None) {
                    Err(e) => r matches Err(x) && x == e,
                    Ok((v, q)) => r matches Ok(x) && x.deep() == v && 0 <= q <= old(self).input@.len() && final(self).input@ == old(self).input@.skip(q),
                }
            },
    {
        if self.input.len() == 0 || !is_letter(self.input[0]) {
            return Err(TokenizeError::FailedExpectedToken);
        }
        match self.try_token(None)? {
            Some(t) => Ok(t),
            None => Err(TokenizeError::FailedExpectedToken),
        }
    }

    /// Reads a number.
    pub fn try_number(&mut self) -> (r: Result<Token, TokenizeError>)
        ensures
            match spec_longest(old(self).input@, 0) {
                Err(e) => r matches Err(x) && x == spec_error(e),
                Ok((_, q)) => match spec_text(old(self).input@, 0, q) {
                    Err(e) => r matches Err(x) && x == spec_error(e),
                    Ok(text) => r matches Ok(t) && t.deep() == TokenView::Number(text) && 0 <= q
                        <= old(self).input@.len() && final(self).input@ == old(self).input@.skip(q),
                },
            },
    {
        let input = self.input;
        let mut lexer = Lexer::new(input);
        match parse_longest(&mut lexer) {
            Err(e) => Err(error(e)),
            Ok(_) => {
                let text = match lexer.text(0, lexer.pos) {
                    Ok(t) => t,
                    Err(e) => {
                        return Err(error(e));
                    },
                };
                let (_, rest) = input.split_at(lexer.pos);
                self.input = rest;
                Ok(Token::Number(text))
            },
        }
    }

    /// Reads the next token, if the input has not ended. Whitespace
    /// before the token is dropped.
    pub fn next_token(&mut self) -> (r: Result<Option<Token>, TokenizeError>)
        ensures
            ({
                let start = spec_run_end(old(self).input@, 0, Run::Space);
                let input = old(self).input@.skip(start);
                if input.len() == 0 {
                    r matches Ok(None)
                } else {
                    match spec_try(input, None) {
                        Err(e) => r matches Err(x) && x == e,
                        Ok((v, q)) => r matches Ok(x) && (match v {
                            Some(y) => x matches Some(z) && z.deep() == y,
                            None => x is None,
                        }) && 0 <= q <= input.len() && final(self).input@ == input.skip(q),
                    }
                }
            }),
    {
        self.skip_whitespace();
        if self.input.len() == 0 {
            return Ok(None);
        }
        self.try_token(None)
    }
}

/// Turns bytes into tokens.
pub fn tokenize_bytes(input: &[u8]) -> (r: Result<Vec<Token>, TokenizeError>)
    ensures
        match spec_tokens(input@, 0) {
            Ok(ts) => r matches Ok(v) && Seq::new(v@.len(), |i: int| v@[i].deep()) == ts,
            Err(e) => r matches Err(x) && x == e,
        },
{
    let mut tokens: Vec<Token> = Vec::new();
    let mut lexer = Lexer::new(input);
    let ghost mut seen: Seq<TokenView> = Seq::empty();
    proof {
        assert(Seq::new(tokens@.len(), |i: int| tokens@[i].deep()) =~= seen);
        if let Ok(s) = spec_tokens(input@, 0) {
            assert(seen + s =~= s);
        }
    }
    loop
        invariant
            lexer.wf(),
            lexer.input@ == input@,
            Seq::new(tokens@.len(), |i: int| tokens@[i].deep()) == seen,
            spec_tokens(input@, 0) == (match spec_tokens(input@, lexer.pos as int) {
                Ok(s) => Ok::<Seq<TokenView>, TokenizeError>(seen + s),
                Err(e) => Err::<Seq<TokenView>, TokenizeError>(e),
            }),
        decreases input@.len() - lexer.pos,
    {
        let here: usize = lexer.pos;
        let lexeme = match lexer.token() {
            Err(e) => {
                return Err(error(e));
            },
            Ok(None) => {
                proof {
                    assert(seen + Seq::<TokenView>::empty() =~= seen);
                }
                return Ok(tokens);
            },
            Ok(Some(t)) => t,
        };
        let token = Tokenizer::convert(input, lexeme, here, lexer.pos)?;
        if lexer.pos <= here {
            return Err(TokenizeError::UnknownError);
        }
        match token {
            Some(t) => {
                proof {
                    if let Ok(rest) = spec_tokens(input@, lexer.pos as int) {
                        assert(seen + (seq![t.deep()] + rest) =~= seen.push(t.deep()) + rest);
                    }
                    seen = seen.push(t.deep());
                }
                tokens.push(t);
                assert(Seq::new(tokens@.len(), |i: int| tokens@[i].deep()) =~= seen);
            },
            None => {},
        }
    }
}

/// Turns a script into tokens.
pub fn tokenize_script(input: &str) -> (r: Result<Vec<Token>, TokenizeError>)
    ensures
        match spec_tokens(input.spec_bytes(), 0) {
            Ok(ts) => r matches Ok(v) && Seq::new(v@.len(), |i: int| v@[i].deep()) == ts,
            Err(e) => r matches Err(x) && x == e,
        },
{
    tokenize_bytes(input.as_bytes())
}

} // verus!
