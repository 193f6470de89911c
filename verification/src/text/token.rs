//! The lexer of the text format: bytes become tokens.
use vstd::prelude::*;
use vstd::string::StringSliceAdditionalSpecFns;
use vstd::utf8::{decode_utf8, valid_utf8};
use crate::parser::string_from_utf8;

verus! {

/// The bytes of a string literal, escapes resolved.
#[derive(Debug, Clone, PartialEq, Eq)]
pub struct TextToken(pub Vec<u8>);

/// A token of the text format. A floating-point literal is carried as it
/// is written.
#[derive(Debug, Clone, PartialEq, Eq)]
pub enum Token {
    LeftParen,
    RightParen,
    Atom(String),
    Name(String),
    Text(TextToken),
    Nat(u64),
    Int(i64),
    Float(String),
    Equal,
    Comment(String),
    Whitespace,
}

/// A token as a value.
pub enum TokenView {
    LeftParen,
    RightParen,
    Atom(Seq<char>),
    Name(Seq<char>),
    Text(Seq<u8>),
    Nat(u64),
    Int(i64),
    Float(Seq<char>),
    Equal,
    Comment(Seq<char>),
    Whitespace,
}

impl Token {
    pub open spec fn deep(self) -> TokenView {
        match self {
            Token::LeftParen => TokenView::LeftParen,
            Token::RightParen => TokenView::RightParen,
            Token::Atom(s) => TokenView::Atom(s@),
            Token::Name(s) => TokenView::Name(s@),
            Token::Text(t) => TokenView::Text(t.0@),
            Token::Nat(n) => TokenView::Nat(n),
            Token::Int(i) => TokenView::Int(i),
            Token::Float(s) => TokenView::Float(s@),
            Token::Equal => TokenView::Equal,
            Token::Comment(s) => TokenView::Comment(s@),
            Token::Whitespace => TokenView::Whitespace,
        }
    }
}

/// The tokens of a vector as values.
pub open spec fn spec_deep_tokens(tokens: Seq<Token>) -> Seq<TokenView> {
    Seq::new(tokens.len(), |i: int| tokens[i].deep())
}

#[derive(Debug, Copy, Clone, PartialEq, Eq, Structural)]
pub enum Sign {
    Positive,
    Negative,
}

#[derive(Debug, Copy, Clone, PartialEq, Eq, Structural)]
pub enum TokenizeError {
    /// Bytes that should spell text are not UTF-8.
    UnknownError,
    FailedExpectedToken,
    UnexpectedNextChar(u8),
    UnexpectedEof,
    /// The digits of a number denote more than the number can hold.
    NumberOutOfRange,
}

pub type LexResult<T> = Result<T, TokenizeError>;

/// The lexer: the input and the position of the next byte.
#[derive(Debug, Copy, Clone)]
pub struct Lexer<'s> {
    pub input: &'s [u8],
    pub pos: usize,
}

/// Whether the bytes `s` stand in `input` at `pos`.
pub open spec fn spec_at(input: Seq<u8>, pos: int, s: Seq<u8>) -> bool {
    0 <= pos && pos + s.len() <= input.len() && input.subrange(pos, pos + s.len()) == s
}

pub open spec fn spec_is_space(c: u8) -> bool {
    c == 0x20 || c == 0x09 || c == 0x0A || c == 0x0D
}

pub open spec fn spec_is_digit(c: u8) -> bool {
    0x30 <= c <= 0x39
}

pub open spec fn spec_is_letter(c: u8) -> bool {
    (0x41 <= c <= 0x5A) || (0x61 <= c <= 0x7A)
}

/// The value of a hexadecimal digit, if the byte is one.
pub open spec fn spec_hex_value(c: u8) -> Option<u8> {
    if 0x30 <= c <= 0x39 {
        Some((c - 0x30) as u8)
    } else if 0x41 <= c <= 0x46 {
        Some((c - 0x41 + 10) as u8)
    } else if 0x61 <= c <= 0x66 {
        Some((c - 0x61 + 10) as u8)
    } else {
        None
    }
}

/// The bytes that may stand in a name: printable characters of ASCII but
/// the space, quotes, comma, semicolon and brackets.
pub open spec fn spec_is_name_char(c: u8) -> bool {
    0x21 <= c <= 0x7E && c != 0x27 && c != 0x22 && c != 0x2C && c != 0x3B && c != 0x28 && c != 0x29
        && c != 0x5B && c != 0x5D && c != 0x7B && c != 0x7D
}

/// The bytes that may follow the first letter of an atom: letters, digits,
/// `_`, `.` and `:`.
pub open spec fn spec_is_atom_char(c: u8) -> bool {
    spec_is_letter(c) || spec_is_digit(c) || c == 0x5F || c == 0x2E || c == 0x3A
}

pub fn is_space(c: u8) -> (r: bool)
    ensures
        r == spec_is_space(c),
{
    c == 0x20 || c == 0x09 || c == 0x0A || c == 0x0D
}

pub fn is_letter(c: u8) -> (r: bool)
    ensures
        r == spec_is_letter(c),
{
    (0x41 <= c && c <= 0x5A) || (0x61 <= c && c <= 0x7A)
}

pub fn hex_value(c: u8) -> (r: Option<u8>)
    ensures
        r == spec_hex_value(c),
        r matches Some(v) ==> v < 16,
{
    if 0x30 <= c && c <= 0x39 {
        Some(c - 0x30)
    } else if 0x41 <= c && c <= 0x46 {
        Some(c - 0x41 + 10)
    } else if 0x61 <= c && c <= 0x66 {
        Some(c - 0x61 + 10)
    } else {
        None
    }
}

/// The kinds of runs of bytes that the lexer reads as a whole.
#[derive(Debug, Copy, Clone, PartialEq, Eq, Structural)]
pub enum Run {
    /// Bytes that may stand in a name.
    Name,
    /// Bytes that may stand in an atom.
    Atom,
    /// Whitespace.
    Space,
    /// Everything up to a line feed.
    Line,
}

/// Whether the byte belongs to a run of the kind.
pub open spec fn spec_in_run(kind: Run, c: u8) -> bool {
    match kind {
        Run::Name => spec_is_name_char(c),
        Run::Atom => spec_is_atom_char(c),
        Run::Space => spec_is_space(c),
        Run::Line => c != 0x0A,
    }
}

/// The end of the longest run of the kind from `pos` on.
pub open spec fn spec_run_end(input: Seq<u8>, pos: int, kind: Run) -> int
    decreases input.len() - pos,
{
    if 0 <= pos < input.len() && spec_in_run(kind, input[pos]) {
        spec_run_end(input, pos + 1, kind)
    } else {
        pos
    }
}

/// The number that digits with the values `digits` denote in base `base`,
/// most significant first.
pub open spec fn spec_number(digits: Seq<u8>, base: nat) -> nat
    decreases digits.len(),
{
    if digits.len() == 0 {
        0
    } else {
        (spec_number(digits.drop_last(), base) * base + digits.last()) as nat
    }
}

/// The number that digits denote, if it fits in 64 bits.
pub open spec fn spec_value(digits: Seq<u8>, base: nat) -> Option<u64> {
    if spec_number(digits, base) <= u64::MAX {
        Some(spec_number(digits, base) as u64)
    } else {
        None
    }
}

/// The digits of a number at `pos`, as their values, and the position
/// after the number: one digit, then digits, each of which an underscore
/// may precede. `hex` says that the digits are hexadecimal.
pub open spec fn spec_digits(input: Seq<u8>, pos: int, hex: bool) -> Option<(Seq<u8>, int)> {
    match spec_digit(input, pos, hex) {
        None => None,
        Some(d) => Some(spec_more_digits(input, pos + 1, hex, seq![d])),
    }
}

/// The value of the digit at `pos`, if there is a digit.
pub open spec fn spec_digit(input: Seq<u8>, pos: int, hex: bool) -> Option<u8> {
    if 0 <= pos < input.len() {
        if hex {
            spec_hex_value(input[pos])
        } else if spec_is_digit(input[pos]) {
            Some((input[pos] - 0x30) as u8)
        } else {
            None
        }
    } else {
        None
    }
}

/// The digits `acc` with the further digits of the number from `pos` on,
/// and the position after them.
pub open spec fn spec_more_digits(input: Seq<u8>, pos: int, hex: bool, acc: Seq<u8>) -> (Seq<u8>, int)
    decreases input.len() - pos,
{
    if pos < 0 || pos >= input.len() {
        (acc, pos)
    } else {
        match spec_digit(input, pos, hex) {
            Some(d) => spec_more_digits(input, pos + 1, hex, acc.push(d)),
            None => if input[pos] == 0x5F {
                match spec_digit(input, pos + 1, hex) {
                    Some(d) => spec_more_digits(input, pos + 2, hex, acc.push(d)),
                    None => (acc, pos),
                }
            } else {
                (acc, pos)
            },
        }
    }
}

/// The number that digits denote and the position after them, or the
/// error where the number does not fit in 64 bits.
pub open spec fn spec_fitting(digits: Seq<u8>, base: nat, next: int) -> Result<(u64, int), TokenizeError> {
    match spec_value(digits, base) {
        Some(n) => Ok((n, next)),
        None => Err(TokenizeError::NumberOutOfRange),
    }
}

/// The natural number at `pos` and the position after it: hexadecimal
/// after `0x`, else decimal. A number that does not fit in 64 bits is an
/// error.
pub open spec fn spec_nat(input: Seq<u8>, pos: int) -> Result<(u64, int), TokenizeError> {
    if spec_at(input, pos, seq![0x30u8, 0x78u8]) {
        match spec_digits(input, pos + 2, true) {
            None => Err(TokenizeError::FailedExpectedToken),
            Some((digits, next)) => spec_fitting(digits, 16, next),
        }
    } else {
        match spec_digits(input, pos, false) {
            None => Err(TokenizeError::FailedExpectedToken),
            Some((digits, next)) => spec_fitting(digits, 10, next),
        }
    }
}

/// The sign at `pos`, if there is one.
pub open spec fn spec_sign(input: Seq<u8>, pos: int) -> Option<Sign> {
    if 0 <= pos < input.len() && input[pos] == 0x2B {
        Some(Sign::Positive)
    } else if 0 <= pos < input.len() && input[pos] == 0x2D {
        Some(Sign::Negative)
    } else {
        None
    }
}

/// The signed number that a sign and a magnitude denote, if it lies
/// between -2^63 and 2^63 - 1.
pub open spec fn spec_signed_value(sign: Sign, magnitude: u64) -> Option<i64> {
    match sign {
        Sign::Positive => if magnitude <= 0x7FFF_FFFF_FFFF_FFFF {
            Some(magnitude as i64)
        } else {
            None
        },
        Sign::Negative => if magnitude <= 0x8000_0000_0000_0000 {
            Some((0 - magnitude) as i64)
        } else {
            None
        },
    }
}

/// The integer at `pos` and the position after it: a sign and a natural
/// number.
pub open spec fn spec_int(input: Seq<u8>, pos: int) -> Result<(i64, int), TokenizeError> {
    match spec_sign(input, pos) {
        None => Err(TokenizeError::FailedExpectedToken),
        Some(sign) => match spec_nat(input, pos + 1) {
            Err(e) => Err(e),
            Ok((n, next)) => match spec_signed_value(sign, n) {
                Some(v) => Ok((v, next)),
                None => Err(TokenizeError::NumberOutOfRange),
            },
        },
    }
}

/// The position after an exponent at `pos`, if one stands there: the
/// letter `lower` or `upper`, a sign if any, and decimal digits.
pub open spec fn spec_exponent_end(input: Seq<u8>, pos: int, lower: u8, upper: u8) -> Option<int> {
    if 0 <= pos < input.len() && (input[pos] == lower || input[pos] == upper) {
        let p = if spec_sign(input, pos + 1) is Some {
            pos + 2
        } else {
            pos + 1
        };
        match spec_digits(input, p, false) {
            Some((_, next)) => Some(next),
            None => None,
        }
    } else {
        None
    }
}

/// The position after a floating-point number at `pos`: a sign if any;
/// then digits, hexadecimal after `0x`; then a point and digits if any, or
/// an exponent, or both. Without point and exponent it is no
/// floating-point number.
pub open spec fn spec_float_end(input: Seq<u8>, pos: int) -> Result<int, TokenizeError> {
    let p = if spec_sign(input, pos) is Some {
        pos + 1
    } else {
        pos
    };
    let hex = spec_at(input, p, seq![0x30u8, 0x78u8]);
    let q = if hex {
        p + 2
    } else {
        p
    };
    match spec_digits(input, q, hex) {
        None => Err(TokenizeError::FailedExpectedToken),
        Some((_, r)) => {
            let point = 0 <= r < input.len() && input[r] == 0x2E;
            let s = if point {
                match spec_digits(input, r + 1, hex) {
                    Some((_, s)) => s,
                    None => r + 1,
                }
            } else {
                r
            };
            let exponent = if hex {
                spec_exponent_end(input, s, 0x70, 0x50)
            } else {
                spec_exponent_end(input, s, 0x65, 0x45)
            };
            match exponent {
                Some(t) => Ok(t),
                None => if point {
                    Ok(s)
                } else if 0 <= s < input.len() {
                    Err(TokenizeError::UnexpectedNextChar(input[s]))
                } else {
                    Err(TokenizeError::UnexpectedEof)
                },
            }
        },
    }
}

/// The position after a word at `pos` that a sign may precede.
pub open spec fn spec_signed_word_end(input: Seq<u8>, pos: int, word: Seq<u8>) -> Result<
    int,
    TokenizeError,
> {
    let p = if spec_sign(input, pos) is Some {
        pos + 1
    } else {
        pos
    };
    if spec_at(input, p, word) {
        Ok(p + word.len())
    } else {
        Err(TokenizeError::FailedExpectedToken)
    }
}

/// The position after a not-a-number with a payload at `pos`: a sign if
/// any, `nan:0x` and hexadecimal digits.
pub open spec fn spec_nan_hex_end(input: Seq<u8>, pos: int) -> Result<int, TokenizeError> {
    match spec_signed_word_end(input, pos, "nan:0x".spec_bytes()) {
        Err(e) => Err(e),
        Ok(p) => match spec_digits(input, p, true) {
            None => Err(TokenizeError::FailedExpectedToken),
            Some((_, next)) => Ok(next),
        },
    }
}

/// The text that the bytes from `from` to `to` spell, if they are UTF-8.
pub open spec fn spec_text(input: Seq<u8>, from: int, to: int) -> Result<Seq<char>, TokenizeError> {
    if 0 <= from <= to <= input.len() && valid_utf8(input.subrange(from, to)) {
        Ok(decode_utf8(input.subrange(from, to)))
    } else {
        Err(TokenizeError::UnknownError)
    }
}

/// The bytes that encode a code point in UTF-8, if it is a scalar value.
pub open spec fn spec_utf8_encode(cp: u64) -> Option<Seq<u8>> {
    if cp < 0x80 {
        Some(seq![cp as u8])
    } else if cp < 0x800 {
        Some(seq![(0xC0 + cp / 0x40) as u8, (0x80 + cp % 0x40) as u8])
    } else if 0xD800 <= cp <= 0xDFFF {
        None
    } else if cp < 0x1_0000 {
        Some(
            seq![
                (0xE0 + cp / 0x1000) as u8,
                (0x80 + (cp / 0x40) % 0x40) as u8,
                (0x80 + cp % 0x40) as u8,
            ],
        )
    } else if cp < 0x11_0000 {
        Some(
            seq![
                (0xF0 + cp / 0x4_0000) as u8,
                (0x80 + (cp / 0x1000) % 0x40) as u8,
                (0x80 + (cp / 0x40) % 0x40) as u8,
                (0x80 + cp % 0x40) as u8,
            ],
        )
    } else {
        None
    }
}

/// The bytes that an escape stands for, the backslash at `pos - 1`, and
/// the position after the escape: `\n`, `\t`, `\\`, `\'`, `\"`, `\u{..}`
/// with the hexadecimal number of a code point, or two hexadecimal digits
/// that give one byte.
pub open spec fn spec_escape(input: Seq<u8>, pos: int) -> Result<(Seq<u8>, int), TokenizeError> {
    if pos < 0 || pos >= input.len() {
        Err(TokenizeError::FailedExpectedToken)
    } else {
        let c = input[pos];
        if c == 0x6E {
            Ok((seq![0x0Au8], pos + 1))
        } else if c == 0x74 {
            Ok((seq![0x09u8], pos + 1))
        } else if c == 0x5C {
            Ok((seq![0x5Cu8], pos + 1))
        } else if c == 0x27 {
            Ok((seq![0x27u8], pos + 1))
        } else if c == 0x22 {
            Ok((seq![0x22u8], pos + 1))
        } else if c == 0x75 {
            if !(pos + 1 < input.len()) {
                Err(TokenizeError::UnexpectedEof)
            } else if input[pos + 1] != 0x7B {
                Err(TokenizeError::UnexpectedNextChar(input[pos + 1]))
            } else {
                match spec_digits(input, pos + 2, true) {
                    None => Err(TokenizeError::FailedExpectedToken),
                    Some((digits, q)) => match spec_value(digits, 16) {
                        None => Err(TokenizeError::NumberOutOfRange),
                        Some(n) => if !(q < input.len()) {
                            Err(TokenizeError::UnexpectedEof)
                        } else if input[q] != 0x7D {
                            Err(TokenizeError::UnexpectedNextChar(input[q]))
                        } else {
                            match spec_utf8_encode(n) {
                                Some(bytes) => Ok((bytes, q + 1)),
                                None => Err(TokenizeError::FailedExpectedToken),
                            }
                        },
                    },
                }
            }
        } else {
            match (spec_digit(input, pos, true), spec_digit(input, pos + 1, true)) {
                (Some(a), Some(b)) => Ok((seq![(a * 16 + b) as u8], pos + 2)),
                _ => Err(TokenizeError::FailedExpectedToken),
            }
        }
    }
}

/// A result with the bytes `acc` in front.
pub open spec fn spec_glue(acc: Seq<u8>, r: Result<(Seq<u8>, int), TokenizeError>) -> Result<
    (Seq<u8>, int),
    TokenizeError,
> {
    match r {
        Ok((s, q)) => Ok((acc + s, q)),
        Err(e) => Err(e),
    }
}

/// The bytes of a string from `pos` on, the opening quote read, and the
/// position after the closing quote.
pub open spec fn spec_string_body(input: Seq<u8>, pos: int) -> Result<(Seq<u8>, int), TokenizeError>
    decreases input.len() - pos,
{
    if pos < 0 || pos >= input.len() {
        Err(TokenizeError::UnexpectedEof)
    } else if input[pos] == 0x22 {
        Ok((Seq::empty(), pos + 1))
    } else if input[pos] == 0x5C {
        match spec_escape(input, pos + 1) {
            Err(e) => Err(e),
            Ok((bytes, q)) => if q <= pos || q > input.len() {
                Err(TokenizeError::UnknownError)
            } else {
                spec_glue(bytes, spec_string_body(input, q))
            },
        }
    } else {
        spec_glue(seq![input[pos]], spec_string_body(input, pos + 1))
    }
}

/// The end of a block comment from `pos` on, `depth` comments open: the
/// position after the `;)` that closes the outermost. Comments nest.
pub open spec fn spec_block_end(input: Seq<u8>, pos: int, depth: nat) -> Result<int, TokenizeError>
    decreases input.len() - pos,
{
    if pos < 0 || pos >= input.len() {
        Err(TokenizeError::UnexpectedEof)
    } else if spec_at(input, pos, seq![0x3Bu8, 0x29u8]) {
        if depth <= 1 {
            Ok(pos + 2)
        } else {
            spec_block_end(input, pos + 2, (depth - 1) as nat)
        }
    } else if spec_at(input, pos, seq![0x28u8, 0x3Bu8]) {
        spec_block_end(input, pos + 2, depth + 1)
    } else {
        spec_block_end(input, pos + 1, depth)
    }
}

/// The end of a line comment from `pos` on: the position of the line feed
/// that ends it, or the end of the input.
pub open spec fn spec_line_end(input: Seq<u8>, pos: int) -> int {
    spec_run_end(input, pos, Run::Line)
}

/// The position after the byte `c` at `pos`, or the error: the end of the
/// input, or another byte.
pub open spec fn spec_expect(input: Seq<u8>, pos: int, c: u8) -> Result<int, TokenizeError> {
    if pos < 0 || pos >= input.len() {
        Err(TokenizeError::UnexpectedEof)
    } else if input[pos] != c {
        Err(TokenizeError::UnexpectedNextChar(input[pos]))
    } else {
        Ok(pos + 1)
    }
}

/// The string literal at `pos` and the position after it.
pub open spec fn spec_string(input: Seq<u8>, pos: int) -> Result<(TokenView, int), TokenizeError> {
    match spec_expect(input, pos, 0x22) {
        Err(e) => Err(e),
        Ok(p) => match spec_string_body(input, p) {
            Err(e) => Err(e),
            Ok((bytes, end)) => Ok((TokenView::Text(bytes), end)),
        },
    }
}

/// The name at `pos` and the position after it: `$` and the bytes that
/// may stand in a name.
pub open spec fn spec_name(input: Seq<u8>, pos: int) -> Result<(TokenView, int), TokenizeError> {
    match spec_expect(input, pos, 0x24) {
        Err(e) => Err(e),
        Ok(p) => {
            let end = spec_run_end(input, p, Run::Name);
            match spec_text(input, p, end) {
                Err(e) => Err(e),
                Ok(text) => Ok((TokenView::Name(text), end)),
            }
        },
    }
}

/// The block comment at `pos` and the position after it: `(;`, the text,
/// and the `;)` that closes it.
pub open spec fn spec_blockcomment(input: Seq<u8>, pos: int) -> Result<(TokenView, int), TokenizeError> {
    if !spec_at(input, pos, seq![0x28u8, 0x3Bu8]) {
        Err(TokenizeError::FailedExpectedToken)
    } else {
        match spec_block_end(input, pos + 2, 1) {
            Err(e) => Err(e),
            Ok(end) => match spec_text(input, pos + 2, end - 2) {
                Err(e) => Err(e),
                Ok(text) => Ok((TokenView::Comment(text), end)),
            },
        }
    }
}

/// The token at `pos`, and the position after it.
pub open spec fn spec_token(input: Seq<u8>, pos: int) -> Result<(TokenView, int), TokenizeError> {
    if pos < 0 || pos >= input.len() {
        Err(TokenizeError::UnexpectedEof)
    } else {
        let c = input[pos];
        if spec_at(input, pos, seq![0x28u8, 0x3Bu8]) {
            spec_blockcomment(input, pos)
        } else if c == 0x28 {
            Ok((TokenView::LeftParen, pos + 1))
        } else if c == 0x29 {
            Ok((TokenView::RightParen, pos + 1))
        } else if c == 0x3D {
            Ok((TokenView::Equal, pos + 1))
        } else if c == 0x24 {
            spec_name(input, pos)
        } else if c == 0x3B {
            if !spec_at(input, pos, seq![0x3Bu8, 0x3Bu8]) {
                Err(TokenizeError::FailedExpectedToken)
            } else {
                let end = spec_line_end(input, pos + 2);
                match spec_text(input, pos + 2, end) {
                    Err(e) => Err(e),
                    Ok(text) => Ok(
                        (
                            TokenView::Comment(text),
                            if end < input.len() {
                                end + 1
                            } else {
                                end
                            },
                        ),
                    ),
                }
            }
        } else if c == 0x22 {
            spec_string(input, pos)
        } else if spec_is_space(c) {
            Ok((TokenView::Whitespace, spec_run_end(input, pos + 1, Run::Space)))
        } else if spec_is_letter(c) {
            let end = spec_run_end(input, pos + 1, Run::Atom);
            match spec_text(input, pos, end) {
                Err(e) => Err(e),
                Ok(text) => Ok((TokenView::Atom(text), end)),
            }
        } else {
            spec_longest(input, pos)
        }
    }
}

/// One reading of a number at `pos`: the token and the position after it,
/// or the error and how far the reading got: to the end of the digits of a
/// number that does not fit, and no further than `pos` otherwise.
pub struct Reading {
    pub token: Result<TokenView, TokenizeError>,
    pub end: int,
}

/// How far the reading of a natural number at `pos` gets: past `0x`, if
/// it stands there, and past the digits, if there are digits.
pub open spec fn spec_nat_reach(input: Seq<u8>, pos: int) -> int {
    if spec_at(input, pos, seq![0x30u8, 0x78u8]) {
        match spec_digits(input, pos + 2, true) {
            Some((_, next)) => next,
            None => pos + 2,
        }
    } else {
        match spec_digits(input, pos, false) {
            Some((_, next)) => next,
            None => pos,
        }
    }
}

/// How far a reading got that failed with the error `e`, `reach` being the
/// end of its digits: that far where the number does not fit, and no
/// further than `pos` otherwise.
pub open spec fn spec_failed_at(e: TokenizeError, pos: int, reach: int) -> int {
    if e == TokenizeError::NumberOutOfRange {
        reach
    } else {
        pos
    }
}

/// The reading of a natural number at `pos`.
pub open spec fn spec_read_nat(input: Seq<u8>, pos: int) -> Reading {
    match spec_nat(input, pos) {
        Ok((n, end)) => Reading { token: Ok(TokenView::Nat(n)), end },
        Err(e) => Reading { token: Err(e), end: spec_failed_at(e, pos, spec_nat_reach(input, pos)) },
    }
}

/// The reading of an integer at `pos`.
pub open spec fn spec_read_int(input: Seq<u8>, pos: int) -> Reading {
    match spec_int(input, pos) {
        Ok((n, end)) => Reading { token: Ok(TokenView::Int(n)), end },
        Err(e) => Reading {
            token: Err(e),
            end: spec_failed_at(e, pos, spec_nat_reach(input, pos + 1)),
        },
    }
}

/// The reading of a floating-point literal that ends at `end`, or failed
/// at `pos`.
pub open spec fn spec_read_float(input: Seq<u8>, pos: int, end: Result<int, TokenizeError>) -> Reading {
    match end {
        Ok(end) => match spec_text(input, pos, end) {
            Ok(text) => Reading { token: Ok(TokenView::Float(text)), end },
            Err(e) => Reading { token: Err(e), end },
        },
        Err(e) => Reading { token: Err(e), end: pos },
    }
}

/// The better of two readings: the one that got further, and the first if
/// both got equally far.
pub open spec fn spec_better(a: Reading, b: Reading) -> Reading {
    if b.end > a.end {
        b
    } else {
        a
    }
}

/// The token at `pos` where a number is expected: of the readings as a
/// natural number, an integer, a floating-point number, an infinity, a
/// not-a-number and a not-a-number with payload, the one that gets
/// furthest, and the earliest of these among equals.
pub open spec fn spec_longest_reading(input: Seq<u8>, pos: int) -> Reading {
    spec_better(
        spec_better(
            spec_better(
                spec_better(
                    spec_better(spec_read_nat(input, pos), spec_read_int(input, pos)),
                    spec_read_float(input, pos, spec_float_end(input, pos)),
                ),
                spec_read_float(input, pos, spec_signed_word_end(input, pos, "inf".spec_bytes())),
            ),
            spec_read_float(input, pos, spec_signed_word_end(input, pos, "nan".spec_bytes())),
        ),
        spec_read_float(input, pos, spec_nan_hex_end(input, pos)),
    )
}

pub open spec fn spec_longest(input: Seq<u8>, pos: int) -> Result<(TokenView, int), TokenizeError> {
    let r = spec_longest_reading(input, pos);
    match r.token {
        Ok(t) => Ok((t, r.end)),
        Err(e) => Err(e),
    }
}

/// The tokens from `pos` to the end of the input.
pub open spec fn spec_tokens(input: Seq<u8>, pos: int) -> Result<Seq<TokenView>, TokenizeError>
    decreases input.len() - pos,
{
    if pos < 0 || pos >= input.len() {
        Ok(Seq::empty())
    } else {
        match spec_token(input, pos) {
            Err(e) => Err(e),
            Ok((t, q)) => if q <= pos || q > input.len() {
                Err(TokenizeError::UnknownError)
            } else {
                match spec_tokens(input, q) {
                    Err(e) => Err(e),
                    Ok(rest) => Ok(seq![t] + rest),
                }
            },
        }
    }
}

/// Whether a token is neither a comment nor whitespace.
pub open spec fn spec_is_significant(t: TokenView) -> bool {
    !(t is Comment) && !(t is Whitespace)
}

/// The tokens that are neither comments nor whitespace, in order.
pub open spec fn spec_significant(tokens: Seq<TokenView>) -> Seq<TokenView>
    decreases tokens.len(),
{
    if tokens.len() == 0 {
        Seq::empty()
    } else if spec_is_significant(tokens.last()) {
        spec_significant(tokens.drop_last()).push(tokens.last())
    } else {
        spec_significant(tokens.drop_last())
    }
}

/// A result with the tokens `acc` in front.
pub open spec fn spec_join(acc: Seq<TokenView>, r: Result<Seq<TokenView>, TokenizeError>) -> Result<
    Seq<TokenView>,
    TokenizeError,
> {
    match r {
        Ok(s) => Ok(acc + s),
        Err(e) => Err(e),
    }
}

pub fn in_run(kind: Run, c: u8) -> (r: bool)
    ensures
        r == spec_in_run(kind, c),
{
    match kind {
        Run::Name => 0x21 <= c && c <= 0x7E && c != 0x27 && c != 0x22 && c != 0x2C && c != 0x3B
            && c != 0x28 && c != 0x29 && c != 0x5B && c != 0x5D && c != 0x7B && c != 0x7D,
        Run::Atom => is_letter(c) || (0x30 <= c && c <= 0x39) || c == 0x5F || c == 0x2E || c == 0x3A,
        Run::Space => is_space(c),
        Run::Line => c != 0x0A,
    }
}

/// The bytes that encode a code point in UTF-8.
pub fn utf8_encode(cp: u64) -> (r: Option<Vec<u8>>)
    ensures
        match spec_utf8_encode(cp) {
            Some(b) => r matches Some(v) && v@ == b,
            None => r is None,
        },
{
    let mut out: Vec<u8> = Vec::new();
    if cp < 0x80 {
        out.push(cp as u8);
    } else if cp < 0x800 {
        out.push((0xC0 + cp / 0x40) as u8);
        out.push((0x80 + cp % 0x40) as u8);
    } else if 0xD800 <= cp && cp <= 0xDFFF {
        return None;
    } else if cp < 0x1_0000 {
        out.push((0xE0 + cp / 0x1000) as u8);
        out.push((0x80 + (cp / 0x40) % 0x40) as u8);
        out.push((0x80 + cp % 0x40) as u8);
    } else if cp < 0x11_0000 {
        out.push((0xF0 + cp / 0x4_0000) as u8);
        out.push((0x80 + (cp / 0x1000) % 0x40) as u8);
        out.push((0x80 + (cp / 0x40) % 0x40) as u8);
        out.push((0x80 + cp % 0x40) as u8);
    } else {
        return None;
    }
    assert(out@ =~= spec_utf8_encode(cp)->Some_0);
    Some(out)
}

impl<'s> Lexer<'s> {
    /// A lexer at the first byte of the input.
    pub fn new(input: &'s [u8]) -> (l: Self)
        ensures
            l.input@ == input@,
            l.pos == 0,
    {
        Lexer { input, pos: 0 }
    }

    /// The positions that a lexer can be at.
    pub open spec fn wf(&self) -> bool {
        self.pos <= self.input@.len()
    }

    /// The next byte, which stays unread.
    pub fn peek_next_char(&self) -> (r: Option<u8>)
        requires
            self.wf(),
        ensures
            r == if self.pos < self.input@.len() {
                Some(self.input@[self.pos as int])
            } else {
                None
            },
            r is Some ==> self.pos < usize::MAX,
    {
        if self.pos < self.input.len() {
            Some(self.input[self.pos])
        } else {
            None
        }
    }

    /// Reads the next byte.
    pub fn accept_next_char(&mut self) -> (r: Option<u8>)
        requires
            old(self).wf(),
        ensures
            final(self).input == old(self).input,
            final(self).wf(),
            r == if old(self).pos < old(self).input@.len() {
                Some(old(self).input@[old(self).pos as int])
            } else {
                None
            },
            final(self).pos == if r is Some {
                old(self).pos + 1
            } else {
                old(self).pos as int
            },
    {
        let c = self.peek_next_char()?;
        self.pos = self.pos + 1;
        Some(c)
    }

    /// Reads the next byte if it is `c`.
    pub fn accept_char(&mut self, c: u8) -> (r: bool)
        requires
            old(self).wf(),
        ensures
            final(self).input == old(self).input,
            final(self).wf(),
            r == (old(self).pos < old(self).input@.len() && old(self).input@[old(self).pos as int]
                == c),
            final(self).pos == if r {
                old(self).pos + 1
            } else {
                old(self).pos as int
            },
    {
        match self.peek_next_char() {
            Some(x) => if x == c {
                self.pos = self.pos + 1;
                true
            } else {
                false
            },
            None => false,
        }
    }

    /// Whether the bytes `s` stand at the position, which stays.
    pub fn at(&self, s: &[u8]) -> (r: bool)
        requires
            self.wf(),
        ensures
            r == spec_at(self.input@, self.pos as int, s@),
            r ==> self.pos + s@.len() <= usize::MAX,
    {
        let n: usize = s.len();
        if n > self.input.len() - self.pos {
            return false;
        }
        let mut i: usize = 0;
        while i < n
            invariant
                i <= n,
                n == s@.len(),
                self.pos + n <= self.input@.len() <= usize::MAX,
                self.input@.subrange(self.pos as int, self.pos + i) == s@.take(i as int),
            decreases n - i,
        {
            if self.input[self.pos + i] != s[i] {
                assert(self.input@.subrange(self.pos as int, self.pos + n)[i as int] != s@[i as int]);
                return false;
            }
            i = i + 1;
            assert(self.input@.subrange(self.pos as int, self.pos + i) =~= s@.take(i as int));
        }
        assert(s@.take(n as int) =~= s@);
        true
    }

    /// Reads the bytes of `s` if they stand next.
    pub fn accept_string(&mut self, s: &str) -> (r: bool)
        requires
            old(self).wf(),
        ensures
            final(self).input == old(self).input,
            final(self).wf(),
            r == spec_at(old(self).input@, old(self).pos as int, s.spec_bytes()),
            final(self).pos == if r {
                old(self).pos + s.spec_bytes().len()
            } else {
                old(self).pos as int
            },
    {
        let bytes = s.as_bytes();
        if self.at(bytes) {
            self.pos = self.pos + bytes.len();
            true
        } else {
            false
        }
    }

    /// Reads the byte `c`, or fails.
    pub fn expect_char(&mut self, c: u8) -> (r: LexResult<()>)
        requires
            old(self).wf(),
        ensures
            final(self).input == old(self).input,
            final(self).wf(),
            r == if !(old(self).pos < old(self).input@.len()) {
                Err::<(), TokenizeError>(TokenizeError::UnexpectedEof)
            } else if old(self).input@[old(self).pos as int] != c {
                Err::<(), TokenizeError>(
                    TokenizeError::UnexpectedNextChar(old(self).input@[old(self).pos as int]),
                )
            } else {
                Ok::<(), TokenizeError>(())
            },
            final(self).pos == if r is Ok {
                old(self).pos + 1
            } else {
                old(self).pos as int
            },
    {
        match self.peek_next_char() {
            None => Err(TokenizeError::UnexpectedEof),
            Some(x) => if x == c {
                self.pos = self.pos + 1;
                Ok(())
            } else {
                Err(TokenizeError::UnexpectedNextChar(x))
            },
        }
    }

    /// Reads the bytes of `s`, or fails.
    pub fn expect_string(&mut self, s: &str) -> (r: LexResult<()>)
        requires
            old(self).wf(),
        ensures
            final(self).input == old(self).input,
            final(self).wf(),
            r is Ok == spec_at(old(self).input@, old(self).pos as int, s.spec_bytes()),
            r is Err ==> r == Err::<(), TokenizeError>(TokenizeError::FailedExpectedToken),
            final(self).pos == if r is Ok {
                old(self).pos + s.spec_bytes().len()
            } else {
                old(self).pos as int
            },
    {
        if self.accept_string(s) {
            Ok(())
        } else {
            Err(TokenizeError::FailedExpectedToken)
        }
    }

    /// Reads the next byte if it may stand in a name.
    pub fn accept_name_char(&mut self) -> (r: Option<u8>)
        requires
            old(self).wf(),
        ensures
            final(self).input == old(self).input,
            final(self).wf(),
            r == if old(self).pos < old(self).input@.len() && spec_is_name_char(
                old(self).input@[old(self).pos as int],
            ) {
                Some(old(self).input@[old(self).pos as int])
            } else {
                None
            },
            final(self).pos == if r is Some {
                old(self).pos + 1
            } else {
                old(self).pos as int
            },
    {
        let c = self.peek_next_char()?;
        if in_run(Run::Name, c) {
            self.pos = self.pos + 1;
            Some(c)
        } else {
            None
        }
    }

    /// Reads the next byte if it may stand in an atom.
    pub fn accept_atom_char(&mut self) -> (r: Option<u8>)
        requires
            old(self).wf(),
        ensures
            final(self).input == old(self).input,
            final(self).wf(),
            r == if old(self).pos < old(self).input@.len() && spec_is_atom_char(
                old(self).input@[old(self).pos as int],
            ) {
                Some(old(self).input@[old(self).pos as int])
            } else {
                None
            },
            final(self).pos == if r is Some {
                old(self).pos + 1
            } else {
                old(self).pos as int
            },
    {
        let c = self.peek_next_char()?;
        if in_run(Run::Atom, c) {
            self.pos = self.pos + 1;
            Some(c)
        } else {
            None
        }
    }

    /// The value of the digit at the position, which stays.
    pub fn peek_digit(&self, at: usize, hex: bool) -> (r: Option<u8>)
        ensures
            r == spec_digit(self.input@, at as int, hex),
            r matches Some(d) ==> d < 16 && at < self.input@.len() && at < usize::MAX,
    {
        if at >= self.input.len() {
            return None;
        }
        let c = self.input[at];
        if hex {
            hex_value(c)
        } else if 0x30 <= c && c <= 0x39 {
            Some(c - 0x30)
        } else {
            None
        }
    }

    /// Reads a decimal digit.
    pub fn accept_digit(&mut self) -> (r: Option<u32>)
        requires
            old(self).wf(),
        ensures
            final(self).input == old(self).input,
            final(self).wf(),
            match spec_digit(old(self).input@, old(self).pos as int, false) {
                Some(d) => r == Some(d as u32) && final(self).pos == old(self).pos + 1,
                None => r is None && final(self).pos == old(self).pos,
            },
    {
        let d = self.peek_digit(self.pos, false)?;
        self.pos = self.pos + 1;
        Some(d as u32)
    }

    /// Reads a hexadecimal digit.
    pub fn accept_hexdigit(&mut self) -> (r: Option<u32>)
        requires
            old(self).wf(),
        ensures
            final(self).input == old(self).input,
            final(self).wf(),
            match spec_digit(old(self).input@, old(self).pos as int, true) {
                Some(d) => r == Some(d as u32) && final(self).pos == old(self).pos + 1,
                None => r is None && final(self).pos == old(self).pos,
            },
    {
        let d = self.peek_digit(self.pos, true)?;
        self.pos = self.pos + 1;
        Some(d as u32)
    }

    /// Reads the digits of a number and returns the number, if it fits in
    /// 64 bits.
    pub fn digits(&mut self, hex: bool) -> (r: Option<Option<u64>>)
        requires
            old(self).wf(),
        ensures
            final(self).input == old(self).input,
            final(self).wf(),
            match spec_digits(old(self).input@, old(self).pos as int, hex) {
                Some((ds, next)) => r == Some(spec_value(ds, if hex { 16nat } else { 10nat }))
                    && final(self).pos == next && next > old(self).pos,
                None => r is None && final(self).pos == old(self).pos,
            },
    {
        let base: u128 = if hex { 16 } else { 10 };
        let first = self.peek_digit(self.pos, hex)?;
        self.pos = self.pos + 1;
        let mut value: Option<u64> = Some(first as u64);
        let ghost mut acc: Seq<u8> = seq![first];
        let ghost input = self.input@;
        let ghost start = old(self).pos as int;
        proof {
            reveal_with_fuel(spec_number, 2);
            assert(acc.drop_last() =~= Seq::<u8>::empty());
        }
        loop
            invariant
                self.wf(),
                self.input == old(self).input,
                input == self.input@,
                start < self.pos,
                start == old(self).pos,
                base == if hex { 16nat } else { 10nat },
                spec_digit(input, start, hex) == Some(first),
                value == spec_value(acc, base as nat),
                spec_more_digits(input, start + 1, hex, seq![first]) == spec_more_digits(
                    input,
                    self.pos as int,
                    hex,
                    acc,
                ),
            decreases self.input@.len() - self.pos,
        {
            let next = match self.peek_digit(self.pos, hex) {
                Some(d) => {
                    self.pos = self.pos + 1;
                    d
                },
                None => {
                    if self.pos < self.input.len() && self.input[self.pos] == 0x5F {
                        match self.peek_digit(self.pos + 1, hex) {
                            Some(d) => {
                                self.pos = self.pos + 2;
                                d
                            },
                            None => {
                                return Some(value);
                            },
                        }
                    } else {
                        return Some(value);
                    }
                },
            };
            proof {
                assert(acc.push(next).drop_last() =~= acc);
                let n = spec_number(acc, base as nat);
                assert(spec_number(acc.push(next), base as nat) == n * base + next);
                assert(n * base >= n) by (nonlinear_arith)
                    requires
                        base >= 1,
                        n >= 0,
                ;
                acc = acc.push(next);
            }
            value = match value {
                None => None,
                Some(v) => {
                    let wide: u128 = v as u128 * base + next as u128;
                    if wide > 0xFFFF_FFFF_FFFF_FFFFu128 {
                        None
                    } else {
                        Some(wide as u64)
                    }
                },
            };
        }
    }

    /// Reads a decimal number. One that does not fit in 64 bits is an
    /// error, and the position is then left as it was.
    pub fn num(&mut self) -> (r: LexResult<u64>)
        requires
            old(self).wf(),
        ensures
            final(self).input == old(self).input,
            final(self).wf(),
            match spec_digits(old(self).input@, old(self).pos as int, false) {
                Some((ds, next)) => match spec_value(ds, 10) {
                    Some(n) => r == Ok::<u64, TokenizeError>(n) && final(self).pos == next && next
                        > old(self).pos,
                    None => r == Err::<u64, TokenizeError>(TokenizeError::NumberOutOfRange)
                        && final(self).pos == old(self).pos,
                },
                None => r == Err::<u64, TokenizeError>(TokenizeError::FailedExpectedToken) && final(self).pos == old(self).pos,
            },
    {
        let start: usize = self.pos;
        match self.digits(false) {
            Some(Some(n)) => Ok(n),
            Some(None) => {
                self.pos = start;
                Err(TokenizeError::NumberOutOfRange)
            },
            None => Err(TokenizeError::FailedExpectedToken),
        }
    }

    /// Reads a hexadecimal number. One that does not fit in 64 bits is an
    /// error, and the position is then left as it was.
    pub fn hexnum(&mut self) -> (r: LexResult<u64>)
        requires
            old(self).wf(),
        ensures
            final(self).input == old(self).input,
            final(self).wf(),
            match spec_digits(old(self).input@, old(self).pos as int, true) {
                Some((ds, next)) => match spec_value(ds, 16) {
                    Some(n) => r == Ok::<u64, TokenizeError>(n) && final(self).pos == next && next
                        > old(self).pos,
                    None => r == Err::<u64, TokenizeError>(TokenizeError::NumberOutOfRange)
                        && final(self).pos == old(self).pos,
                },
                None => r == Err::<u64, TokenizeError>(TokenizeError::FailedExpectedToken) && final(self).pos == old(self).pos,
            },
    {
        let start: usize = self.pos;
        match self.digits(true) {
            Some(Some(n)) => Ok(n),
            Some(None) => {
                self.pos = start;
                Err(TokenizeError::NumberOutOfRange)
            },
            None => Err(TokenizeError::FailedExpectedToken),
        }
    }

    /// Reads the two bytes `a` and `b` if they stand next.
    pub fn accept_pair(&mut self, a: u8, b: u8) -> (r: bool)
        requires
            old(self).wf(),
        ensures
            final(self).input == old(self).input,
            final(self).wf(),
            r == spec_at(old(self).input@, old(self).pos as int, seq![a, b]),
            final(self).pos == if r {
                old(self).pos + 2
            } else {
                old(self).pos as int
            },
    {
        let len: usize = self.input.len();
        if len - self.pos >= 2 && self.input[self.pos] == a && self.input[self.pos + 1] == b {
            assert(self.input@.subrange(self.pos as int, self.pos + 2) =~= seq![a, b]);
            self.pos = self.pos + 2;
            true
        } else {
            proof {
                if spec_at(self.input@, self.pos as int, seq![a, b]) {
                    let sub = self.input@.subrange(self.pos as int, self.pos + 2);
                    assert(sub[0] == a && sub[1] == b);
                }
            }
            false
        }
    }

    /// Whether `0x` stands at the position; if so it is read.
    fn accept_hex_prefix(&mut self) -> (r: bool)
        requires
            old(self).wf(),
        ensures
            final(self).input == old(self).input,
            final(self).wf(),
            r == spec_at(old(self).input@, old(self).pos as int, seq![0x30u8, 0x78u8]),
            final(self).pos == if r {
                old(self).pos + 2
            } else {
                old(self).pos as int
            },
    {
        self.accept_pair(0x30, 0x78)
    }

    /// Reads a natural number: hexadecimal after `0x`, else decimal. On a
    /// failure the position is where the reading gave up: after the digits
    /// of a number that does not fit.
    pub fn expect_nat(&mut self) -> (r: LexResult<u64>)
        requires
            old(self).wf(),
        ensures
            final(self).input == old(self).input,
            final(self).wf(),
            match spec_nat(old(self).input@, old(self).pos as int) {
                Ok((n, next)) => r == Ok::<u64, TokenizeError>(n) && final(self).pos == next && next
                    > old(self).pos,
                Err(e) => r == Err::<u64, TokenizeError>(e) && final(self).pos == spec_nat_reach(
                    old(self).input@,
                    old(self).pos as int,
                ),
            },
    {
        let hex = self.accept_hex_prefix();
        match self.digits(hex) {
            Some(Some(n)) => Ok(n),
            Some(None) => Err(TokenizeError::NumberOutOfRange),
            None => Err(TokenizeError::FailedExpectedToken),
        }
    }

    /// Reads a sign if one stands next.
    pub fn accept_sign(&mut self) -> (r: Option<Sign>)
        requires
            old(self).wf(),
        ensures
            final(self).input == old(self).input,
            final(self).wf(),
            r == spec_sign(old(self).input@, old(self).pos as int),
            final(self).pos == if r is Some {
                old(self).pos + 1
            } else {
                old(self).pos as int
            },
    {
        if self.accept_char(0x2B) {
            return Some(Sign::Positive);
        }
        if self.accept_char(0x2D) {
            return Some(Sign::Negative);
        }
        None
    }

    /// Reads a sign, or fails.
    pub fn sign(&mut self) -> (r: LexResult<Sign>)
        requires
            old(self).wf(),
        ensures
            final(self).input == old(self).input,
            final(self).wf(),
            match spec_sign(old(self).input@, old(self).pos as int) {
                Some(s) => r == Ok::<Sign, TokenizeError>(s) && final(self).pos == old(self).pos + 1,
                None => r == Err::<Sign, TokenizeError>(TokenizeError::FailedExpectedToken) && final(self).pos == old(self).pos,
            },
    {
        match self.accept_sign() {
            Some(s) => Ok(s),
            None => Err(TokenizeError::FailedExpectedToken),
        }
    }

    /// Skips the longest run of the kind.
    pub fn skip_run(&mut self, kind: Run)
        requires
            old(self).wf(),
        ensures
            final(self).input == old(self).input,
            final(self).wf(),
            final(self).pos == spec_run_end(old(self).input@, old(self).pos as int, kind),
            final(self).pos >= old(self).pos,
    {
        while self.pos < self.input.len() && in_run(kind, self.input[self.pos])
            invariant
                self.wf(),
                self.input == old(self).input,
                self.pos >= old(self).pos,
                spec_run_end(old(self).input@, old(self).pos as int, kind) == spec_run_end(
                    self.input@,
                    self.pos as int,
                    kind,
                ),
            decreases self.input@.len() - self.pos,
        {
            self.pos = self.pos + 1;
        }
    }

    /// The text that the bytes from `from` to `to` spell.
    pub fn text(&self, from: usize, to: usize) -> (r: LexResult<String>)
        ensures
            match spec_text(self.input@, from as int, to as int) {
                Ok(t) => r matches Ok(s) && s@ == t,
                Err(e) => r matches Err(x) && x == e,
            },
    {
        if from > to || to > self.input.len() {
            return Err(TokenizeError::UnknownError);
        }
        let mut bytes: Vec<u8> = Vec::new();
        let mut i: usize = from;
        while i < to
            invariant
                from <= i <= to <= self.input@.len(),
                bytes@ == self.input@.subrange(from as int, i as int),
            decreases to - i,
        {
            bytes.push(self.input[i]);
            i = i + 1;
            assert(bytes@ =~= self.input@.subrange(from as int, i as int));
        }
        match string_from_utf8(bytes) {
            Some(s) => Ok(s),
            None => Err(TokenizeError::UnknownError),
        }
    }

    /// Reads `(`.
    pub fn lparen(&mut self) -> (r: LexResult<Token>)
        requires
            old(self).wf(),
        ensures
            final(self).input == old(self).input,
            final(self).wf(),
            match spec_expect(old(self).input@, old(self).pos as int, 0x28) {
                Ok(next) => r == Ok::<Token, TokenizeError>(Token::LeftParen) && final(self).pos == next,
                Err(e) => r == Err::<Token, TokenizeError>(e) && final(self).pos == old(self).pos,
            },
    {
        self.expect_char(0x28)?;
        Ok(Token::LeftParen)
    }

    /// Reads `)`.
    pub fn rparen(&mut self) -> (r: LexResult<Token>)
        requires
            old(self).wf(),
        ensures
            final(self).input == old(self).input,
            final(self).wf(),
            match spec_expect(old(self).input@, old(self).pos as int, 0x29) {
                Ok(next) => r == Ok::<Token, TokenizeError>(Token::RightParen) && final(self).pos == next,
                Err(e) => r == Err::<Token, TokenizeError>(e) && final(self).pos == old(self).pos,
            },
    {
        self.expect_char(0x29)?;
        Ok(Token::RightParen)
    }

    /// Reads `=`.
    pub fn equal(&mut self) -> (r: LexResult<Token>)
        requires
            old(self).wf(),
        ensures
            final(self).input == old(self).input,
            final(self).wf(),
            match spec_expect(old(self).input@, old(self).pos as int, 0x3D) {
                Ok(next) => r == Ok::<Token, TokenizeError>(Token::Equal) && final(self).pos == next,
                Err(e) => r == Err::<Token, TokenizeError>(e) && final(self).pos == old(self).pos,
            },
    {
        self.expect_char(0x3D)?;
        Ok(Token::Equal)
    }

    /// Reads an escape, the backslash already read.
    pub fn escape(&mut self) -> (r: LexResult<Vec<u8>>)
        requires
            old(self).wf(),
        ensures
            final(self).input == old(self).input,
            final(self).wf(),
            match spec_escape(old(self).input@, old(self).pos as int) {
                Ok((bytes, next)) => r matches Ok(v) && v@ == bytes && final(self).pos == next
                    && next > old(self).pos,
                Err(e) => r matches Err(x) && x == e,
            },
    {
        let c = match self.peek_next_char() {
            Some(c) => c,
            None => {
                return Err(TokenizeError::FailedExpectedToken);
            },
        };
        let mut out: Vec<u8> = Vec::new();
        if c == 0x6E {
            self.pos = self.pos + 1;
            out.push(0x0A);
        } else if c == 0x74 {
            self.pos = self.pos + 1;
            out.push(0x09);
        } else if c == 0x5C {
            self.pos = self.pos + 1;
            out.push(0x5C);
        } else if c == 0x27 {
            self.pos = self.pos + 1;
            out.push(0x27);
        } else if c == 0x22 {
            self.pos = self.pos + 1;
            out.push(0x22);
        } else if c == 0x75 {
            self.pos = self.pos + 1;
            self.expect_char(0x7B)?;
            let num = self.hexnum()?;
            self.expect_char(0x7D)?;
            return match utf8_encode(num) {
                Some(bytes) => Ok(bytes),
                None => Err(TokenizeError::FailedExpectedToken),
            };
        } else {
            let a = match self.accept_hexdigit() {
                Some(a) => a,
                None => {
                    return Err(TokenizeError::FailedExpectedToken);
                },
            };
            let b = match self.accept_hexdigit() {
                Some(b) => b,
                None => {
                    return Err(TokenizeError::FailedExpectedToken);
                },
            };
            out.push((a * 16 + b) as u8);
        }
        assert(out@ =~= spec_escape(old(self).input@, old(self).pos as int)->Ok_0.0);
        Ok(out)
    }

    /// Reads a string literal.
    pub fn string(&mut self) -> (r: LexResult<Token>)
        requires
            old(self).wf(),
        ensures
            final(self).input == old(self).input,
            final(self).wf(),
            match spec_string(old(self).input@, old(self).pos as int) {
                Ok((t, next)) => r matches Ok(x) && x.deep() == t && final(self).pos == next && next
                    > old(self).pos,
                Err(e) => r matches Err(x) && x == e,
            },
    {
        self.expect_char(0x22)?;
        let mut text: Vec<u8> = Vec::new();
        let ghost input = self.input@;
        let ghost start = self.pos as int;
        proof {
            lemma_glue_empty(spec_string_body(input, start));
        }
        loop
            invariant
                self.wf(),
                self.input == old(self).input,
                input == self.input@,
                start == old(self).pos + 1,
                start <= self.pos,
                spec_expect(input, old(self).pos as int, 0x22) == Ok::<int, TokenizeError>(start),
                spec_string_body(input, start) == spec_glue(
                    text@,
                    spec_string_body(input, self.pos as int),
                ),
            decreases self.input@.len() - self.pos,
        {
            let c = match self.accept_next_char() {
                Some(c) => c,
                None => {
                    return Err(TokenizeError::UnexpectedEof);
                },
            };
            if c == 0x22 {
                proof {
                    assert(text@ + Seq::<u8>::empty() =~= text@);
                }
                return Ok(Token::Text(TextToken(text)));
            }
            let ghost acc = text@;
            if c == 0x5C {
                let mut bytes = self.escape()?;
                proof {
                    lemma_glue_step(acc, bytes@, spec_string_body(input, self.pos as int));
                }
                text.append(&mut bytes);
            } else {
                proof {
                    lemma_glue_step(acc, seq![c], spec_string_body(input, self.pos as int));
                    assert(acc + seq![c] =~= acc.push(c));
                }
                text.push(c);
            }
        }
    }

    /// Reads whitespace.
    pub fn whitespace(&mut self) -> (r: LexResult<Token>)
        requires
            old(self).wf(),
        ensures
            final(self).input == old(self).input,
            final(self).wf(),
            r == if !(old(self).pos < old(self).input@.len()) {
                Err::<Token, TokenizeError>(TokenizeError::UnexpectedEof)
            } else if !spec_is_space(old(self).input@[old(self).pos as int]) {
                Err::<Token, TokenizeError>(
                    TokenizeError::UnexpectedNextChar(old(self).input@[old(self).pos as int]),
                )
            } else {
                Ok::<Token, TokenizeError>(Token::Whitespace)
            },
            r is Ok ==> final(self).pos == spec_run_end(
                old(self).input@,
                old(self).pos + 1,
                Run::Space,
            ) && final(self).pos > old(self).pos,
    {
        let c = match self.peek_next_char() {
            Some(c) => c,
            None => {
                return Err(TokenizeError::UnexpectedEof);
            },
        };
        if !is_space(c) {
            return Err(TokenizeError::UnexpectedNextChar(c));
        }
        self.pos = self.pos + 1;
        self.skip_run(Run::Space);
        Ok(Token::Whitespace)
    }

    /// Reads a name: `$` and the bytes of the name.
    pub fn name(&mut self) -> (r: LexResult<Token>)
        requires
            old(self).wf(),
        ensures
            final(self).input == old(self).input,
            final(self).wf(),
            match spec_name(old(self).input@, old(self).pos as int) {
                Ok((t, next)) => r matches Ok(x) && x.deep() == t && final(self).pos == next && next
                    > old(self).pos,
                Err(e) => r matches Err(x) && x == e,
            },
    {
        self.expect_char(0x24)?;
        let from: usize = self.pos;
        self.skip_run(Run::Name);
        let name = self.text(from, self.pos)?;
        Ok(Token::Name(name))
    }

    /// Reads a line comment: `;;` and the rest of the line.
    pub fn linecomment(&mut self) -> (r: LexResult<Token>)
        requires
            old(self).wf(),
        ensures
            final(self).input == old(self).input,
            final(self).wf(),
            if !spec_at(old(self).input@, old(self).pos as int, seq![0x3Bu8, 0x3Bu8]) {
                r matches Err(x) && x == TokenizeError::FailedExpectedToken
            } else {
                let end = spec_line_end(old(self).input@, old(self).pos + 2);
                match spec_text(old(self).input@, old(self).pos + 2, end) {
                    Ok(text) => r matches Ok(t) && t.deep() == TokenView::Comment(text) && final(self).pos == (if end < old(self).input@.len() {
                        end + 1
                    } else {
                        end
                    }) && final(self).pos > old(self).pos,
                    Err(e) => r matches Err(x) && x == e,
                }
            },
    {
        let len: usize = self.input.len();
        if !(len - self.pos >= 2 && self.input[self.pos] == 0x3B && self.input[self.pos + 1] == 0x3B) {
            proof {
                if spec_at(self.input@, self.pos as int, seq![0x3Bu8, 0x3Bu8]) {
                    let sub = self.input@.subrange(self.pos as int, self.pos + 2);
                    assert(sub[0] == 0x3Bu8 && sub[1] == 0x3Bu8);
                }
            }
            return Err(TokenizeError::FailedExpectedToken);
        }
        assert(self.input@.subrange(self.pos as int, self.pos + 2) =~= seq![0x3Bu8, 0x3Bu8]);
        self.pos = self.pos + 2;
        let from: usize = self.pos;
        self.skip_run(Run::Line);
        let comment = self.text(from, self.pos)?;
        if self.pos < len {
            self.pos = self.pos + 1;
        }
        Ok(Token::Comment(comment))
    }

    /// Reads an atom: a letter and the bytes that may follow it.
    pub fn atom(&mut self) -> (r: LexResult<Token>)
        requires
            old(self).wf(),
        ensures
            final(self).input == old(self).input,
            final(self).wf(),
            if !(old(self).pos < old(self).input@.len()) {
                r matches Err(x) && x == TokenizeError::UnexpectedEof
            } else if !spec_is_letter(old(self).input@[old(self).pos as int]) {
                r matches Err(x) && x == TokenizeError::FailedExpectedToken
            } else {
                let end = spec_run_end(old(self).input@, old(self).pos + 1, Run::Atom);
                match spec_text(old(self).input@, old(self).pos as int, end) {
                    Ok(text) => r matches Ok(t) && t.deep() == TokenView::Atom(text) && final(self).pos == end && end > old(self).pos,
                    Err(e) => r matches Err(x) && x == e,
                }
            },
    {
        let c = match self.peek_next_char() {
            Some(c) => c,
            None => {
                return Err(TokenizeError::UnexpectedEof);
            },
        };
        if !is_letter(c) {
            return Err(TokenizeError::FailedExpectedToken);
        }
        let from: usize = self.pos;
        self.pos = self.pos + 1;
        self.skip_run(Run::Atom);
        let atom = self.text(from, self.pos)?;
        Ok(Token::Atom(atom))
    }

    /// Reads a block comment: `(;`, the text, and `;)`. Comments nest.
    pub fn blockcomment(&mut self) -> (r: LexResult<Token>)
        requires
            old(self).wf(),
        ensures
            final(self).input == old(self).input,
            final(self).wf(),
            match spec_blockcomment(old(self).input@, old(self).pos as int) {
                Ok((t, next)) => r matches Ok(x) && x.deep() == t && final(self).pos == next && next
                    > old(self).pos,
                Err(e) => r matches Err(x) && x == e,
            },
    {
        let len: usize = self.input.len();
        if !self.accept_pair(0x28, 0x3B) {
            return Err(TokenizeError::FailedExpectedToken);
        }
        let from: usize = self.pos;
        let mut depth: usize = 1;
        let ghost input = self.input@;
        loop
            invariant
                self.wf(),
                self.input == old(self).input,
                input == self.input@,
                len == input.len(),
                from == old(self).pos + 2,
                spec_at(input, old(self).pos as int, seq![0x28u8, 0x3Bu8]),
                from <= self.pos,
                depth >= 1,
                depth <= self.pos,
                spec_block_end(input, from as int, 1) == spec_block_end(
                    input,
                    self.pos as int,
                    depth as nat,
                ),
            decreases self.input@.len() - self.pos,
        {
            if self.pos >= len {
                return Err(TokenizeError::UnexpectedEof);
            }
            let c = self.input[self.pos];
            let d = if len - self.pos >= 2 {
                Some(self.input[self.pos + 1])
            } else {
                None
            };
            proof {
                let close = seq![0x3Bu8, 0x29u8];
                let open = seq![0x28u8, 0x3Bu8];
                if self.pos + 2 <= len {
                    let sub = input.subrange(self.pos as int, self.pos + 2);
                    assert(sub[0] == c && sub[1] == d->Some_0);
                    assert(sub == close <==> (c == 0x3Bu8 && d == Some(0x29u8))) by {
                        if c == 0x3Bu8 && d == Some(0x29u8) {
                            assert(sub =~= close);
                        }
                    }
                    assert(sub == open <==> (c == 0x28u8 && d == Some(0x3Bu8))) by {
                        if c == 0x28u8 && d == Some(0x3Bu8) {
                            assert(sub =~= open);
                        }
                    }
                }
            }
            if c == 0x3B && d == Some(0x29) {
                self.pos = self.pos + 2;
                if depth == 1 {
                    let comment = self.text(from, self.pos - 2)?;
                    return Ok(Token::Comment(comment));
                }
                depth = depth - 1;
            } else if c == 0x28 && d == Some(0x3B) {
                self.pos = self.pos + 2;
                depth = depth + 1;
            } else {
                self.pos = self.pos + 1;
            }
        }
    }
}

pub proof fn lemma_glue_empty(r: Result<(Seq<u8>, int), TokenizeError>)
    ensures
        spec_glue(Seq::empty(), r) == r,
{
    if let Ok((s, q)) = r {
        assert(Seq::<u8>::empty() + s =~= s);
    }
}

pub proof fn lemma_glue_step(acc: Seq<u8>, x: Seq<u8>, r: Result<(Seq<u8>, int), TokenizeError>)
    ensures
        spec_glue(acc, spec_glue(x, r)) == spec_glue(acc + x, r),
{
    if let Ok((s, q)) = r {
        assert(acc + (x + s) =~= (acc + x) + s);
    }
}

/// One reading of a number: the token, and the position after it, or the
/// error and how far the reading got.
#[derive(Debug)]
pub struct Attempt {
    pub token: LexResult<Token>,
    pub end: usize,
}

impl Attempt {
    pub open spec fn deep(self) -> Reading {
        Reading {
            token: match self.token {
                Ok(t) => Ok(t.deep()),
                Err(e) => Err(e),
            },
            end: self.end as int,
        }
    }

    /// The better of two readings: the one that got further, and the first
    /// if both got equally far.
    pub fn better(self, other: Attempt) -> (r: Attempt)
        ensures
            r.deep() == spec_better(self.deep(), other.deep()),
    {
        if other.end > self.end {
            other
        } else {
            self
        }
    }
}

impl<'s> Lexer<'s> {
    /// Reads a natural number. A number that does not fit leaves the
    /// position after its digits; any other failure leaves it as it was.
    pub fn natural(&mut self) -> (r: LexResult<Token>)
        requires
            old(self).wf(),
        ensures
            final(self).input == old(self).input,
            final(self).wf(),
            (Attempt { token: r, end: final(self).pos }).deep() == spec_read_nat(
                old(self).input@,
                old(self).pos as int,
            ),
            r is Ok ==> final(self).pos > old(self).pos,
    {
        let start: usize = self.pos;
        match self.expect_nat() {
            Ok(num) => Ok(Token::Nat(num)),
            Err(TokenizeError::NumberOutOfRange) => Err(TokenizeError::NumberOutOfRange),
            Err(e) => {
                self.pos = start;
                Err(e)
            },
        }
    }

    /// The signed number that a sign and a magnitude denote, if it fits in
    /// 64 bits.
    pub fn signed_value(sign: Sign, magnitude: u64) -> (r: Option<i64>)
        ensures
            r == spec_signed_value(sign, magnitude),
    {
        match sign {
            Sign::Positive => if magnitude <= 0x7FFF_FFFF_FFFF_FFFF {
                Some(magnitude as i64)
            } else {
                None
            },
            Sign::Negative => if magnitude <= 0x8000_0000_0000_0000 {
                Some((0i128 - magnitude as i128) as i64)
            } else {
                None
            },
        }
    }

    /// Reads an integer: a sign and a natural number. A number that does
    /// not fit leaves the position after its digits; any other failure
    /// leaves it as it was.
    pub fn integer(&mut self) -> (r: LexResult<Token>)
        requires
            old(self).wf(),
        ensures
            final(self).input == old(self).input,
            final(self).wf(),
            (Attempt { token: r, end: final(self).pos }).deep() == spec_read_int(
                old(self).input@,
                old(self).pos as int,
            ),
            r is Ok ==> final(self).pos > old(self).pos,
    {
        let start: usize = self.pos;
        let sign = self.sign()?;
        match self.expect_nat() {
            Ok(num) => match Self::signed_value(sign, num) {
                Some(v) => Ok(Token::Int(v)),
                None => Err(TokenizeError::NumberOutOfRange),
            },
            Err(TokenizeError::NumberOutOfRange) => Err(TokenizeError::NumberOutOfRange),
            Err(e) => {
                self.pos = start;
                Err(e)
            },
        }
    }

    /// Reads an exponent if one stands next.
    fn exponent(&mut self, lower: u8, upper: u8) -> (r: bool)
        requires
            old(self).wf(),
        ensures
            final(self).input == old(self).input,
            final(self).wf(),
            match spec_exponent_end(old(self).input@, old(self).pos as int, lower, upper) {
                Some(next) => r && final(self).pos == next && next > old(self).pos,
                None => !r && final(self).pos == old(self).pos,
            },
    {
        let start: usize = self.pos;
        match self.peek_next_char() {
            None => false,
            Some(c) => {
                if c != lower && c != upper {
                    return false;
                }
                self.pos = self.pos + 1;
                let _ = self.accept_sign();
                if self.digits(false).is_some() {
                    true
                } else {
                    self.pos = start;
                    false
                }
            },
        }
    }

    /// Reads the shape of a floating-point number.
    fn float_end(&mut self) -> (r: LexResult<()>)
        requires
            old(self).wf(),
        ensures
            final(self).input == old(self).input,
            final(self).wf(),
            final(self).pos >= old(self).pos,
            match spec_float_end(old(self).input@, old(self).pos as int) {
                Ok(next) => r is Ok && final(self).pos == next && next > old(self).pos,
                Err(e) => r == Err::<(), TokenizeError>(e),
            },
    {
        let _ = self.accept_sign();
        let hex = self.accept_hex_prefix();
        if self.digits(hex).is_none() {
            return Err(TokenizeError::FailedExpectedToken);
        }
        let point = self.accept_char(0x2E);
        if point {
            let _ = self.digits(hex);
        }
        let exponent = if hex {
            self.exponent(0x70, 0x50)
        } else {
            self.exponent(0x65, 0x45)
        };
        if exponent || point {
            Ok(())
        } else {
            match self.peek_next_char() {
                Some(c) => Err(TokenizeError::UnexpectedNextChar(c)),
                None => Err(TokenizeError::UnexpectedEof),
            }
        }
    }

    /// Reads a word that a sign may precede.
    fn signed_word(&mut self, word: &str) -> (r: LexResult<()>)
        requires
            old(self).wf(),
        ensures
            final(self).input == old(self).input,
            final(self).wf(),
            final(self).pos >= old(self).pos,
            match spec_signed_word_end(old(self).input@, old(self).pos as int, word.spec_bytes()) {
                Ok(next) => r is Ok && final(self).pos == next,
                Err(e) => r == Err::<(), TokenizeError>(e),
            },
    {
        let _ = self.accept_sign();
        self.expect_string(word)
    }

    /// The token of a floating-point literal that was read from `start`
    /// on, or that could not be read.
    fn float_token(&mut self, start: usize, end: LexResult<()>) -> (r: LexResult<Token>)
        requires
            old(self).wf(),
            start <= old(self).pos,
        ensures
            final(self).input == old(self).input,
            final(self).wf(),
            (Attempt { token: r, end: final(self).pos }).deep() == spec_read_float(
                old(self).input@,
                start as int,
                match end {
                    Ok(_) => Ok::<int, TokenizeError>(old(self).pos as int),
                    Err(e) => Err::<int, TokenizeError>(e),
                },
            ),
    {
        match end {
            Ok(()) => match self.text(start, self.pos) {
                Ok(text) => Ok(Token::Float(text)),
                Err(e) => Err(e),
            },
            Err(e) => {
                self.pos = start;
                Err(e)
            },
        }
    }

    /// Reads a floating-point number. A failure leaves the position as it
    /// was.
    pub fn float(&mut self) -> (r: LexResult<Token>)
        requires
            old(self).wf(),
        ensures
            final(self).input == old(self).input,
            final(self).wf(),
            (Attempt { token: r, end: final(self).pos }).deep() == spec_read_float(
                old(self).input@,
                old(self).pos as int,
                spec_float_end(old(self).input@, old(self).pos as int),
            ),
    {
        let start: usize = self.pos;
        let end = self.float_end();
        self.float_token(start, end)
    }

    /// Reads an infinity.
    pub fn float_inf(&mut self) -> (r: LexResult<Token>)
        requires
            old(self).wf(),
        ensures
            final(self).input == old(self).input,
            final(self).wf(),
            (Attempt { token: r, end: final(self).pos }).deep() == spec_read_float(
                old(self).input@,
                old(self).pos as int,
                spec_signed_word_end(old(self).input@, old(self).pos as int, "inf".spec_bytes()),
            ),
    {
        let start: usize = self.pos;
        let end = self.signed_word("inf");
        self.float_token(start, end)
    }

    /// Reads a not-a-number.
    pub fn float_nan(&mut self) -> (r: LexResult<Token>)
        requires
            old(self).wf(),
        ensures
            final(self).input == old(self).input,
            final(self).wf(),
            (Attempt { token: r, end: final(self).pos }).deep() == spec_read_float(
                old(self).input@,
                old(self).pos as int,
                spec_signed_word_end(old(self).input@, old(self).pos as int, "nan".spec_bytes()),
            ),
    {
        let start: usize = self.pos;
        let end = self.signed_word("nan");
        self.float_token(start, end)
    }

    /// Reads a not-a-number with a payload.
    pub fn float_nan_hex(&mut self) -> (r: LexResult<Token>)
        requires
            old(self).wf(),
        ensures
            final(self).input == old(self).input,
            final(self).wf(),
            (Attempt { token: r, end: final(self).pos }).deep() == spec_read_float(
                old(self).input@,
                old(self).pos as int,
                spec_nan_hex_end(old(self).input@, old(self).pos as int),
            ),
    {
        let start: usize = self.pos;
        let end = match self.signed_word("nan:0x") {
            Err(e) => Err(e),
            Ok(()) => match self.digits(true) {
                Some(_) => Ok(()),
                None => Err(TokenizeError::FailedExpectedToken),
            },
        };
        self.float_token(start, end)
    }
}

/// Reads a number in the way that gets furthest: as a natural number, an
/// integer, a floating-point number, an infinity or a not-a-number. The
/// lexer then stands where that reading ended, also where it failed.
pub fn parse_longest<'s>(lexer: &mut Lexer<'s>) -> (r: LexResult<Token>)
    requires
        old(lexer).wf(),
    ensures
        final(lexer).input == old(lexer).input,
        final(lexer).wf(),
        final(lexer).pos == spec_longest_reading(old(lexer).input@, old(lexer).pos as int).end,
        match spec_longest(old(lexer).input@, old(lexer).pos as int) {
            Ok((t, next)) => r matches Ok(x) && x.deep() == t && final(lexer).pos == next,
            Err(e) => r matches Err(x) && x == e,
        },
{
    let mut l = *lexer;
    let token = l.natural();
    let mut best = Attempt { token, end: l.pos };
    let mut l = *lexer;
    let token = l.integer();
    best = best.better(Attempt { token, end: l.pos });
    let mut l = *lexer;
    let token = l.float();
    best = best.better(Attempt { token, end: l.pos });
    let mut l = *lexer;
    let token = l.float_inf();
    best = best.better(Attempt { token, end: l.pos });
    let mut l = *lexer;
    let token = l.float_nan();
    best = best.better(Attempt { token, end: l.pos });
    let mut l = *lexer;
    let token = l.float_nan_hex();
    best = best.better(Attempt { token, end: l.pos });
    assert(best.deep() == spec_longest_reading(lexer.input@, lexer.pos as int));
    lexer.pos = best.end;
    best.token
}

impl<'s> Lexer<'s> {
    /// Reads the next token, if the input has not ended.
    pub fn token(&mut self) -> (r: LexResult<Option<Token>>)
        requires
            old(self).wf(),
        ensures
            final(self).input == old(self).input,
            final(self).wf(),
            if old(self).pos >= old(self).input@.len() {
                r matches Ok(None) && final(self).pos == old(self).pos
            } else {
                match spec_token(old(self).input@, old(self).pos as int) {
                    Ok((t, next)) => r matches Ok(Some(x)) && x.deep() == t && final(self).pos == next,
                    Err(e) => r matches Err(x) && x == e,
                }
            },
    {
        let c = match self.peek_next_char() {
            None => {
                return Ok(None);
            },
            Some(c) => c,
        };
        let len: usize = self.input.len();
        let block = len - self.pos >= 2 && c == 0x28 && self.input[self.pos + 1] == 0x3B;
        proof {
            let open = seq![0x28u8, 0x3Bu8];
            if self.pos + 2 <= len {
                let sub = self.input@.subrange(self.pos as int, self.pos + 2);
                assert(sub[0] == c && sub[1] == self.input@[self.pos + 1]);
                if block {
                    assert(sub =~= open);
                }
            }
        }
        let res = if block {
            self.blockcomment()
        } else if c == 0x28 {
            self.lparen()
        } else if c == 0x29 {
            self.rparen()
        } else if c == 0x3D {
            self.equal()
        } else if c == 0x24 {
            self.name()
        } else if c == 0x3B {
            self.linecomment()
        } else if c == 0x22 {
            self.string()
        } else if is_space(c) {
            self.whitespace()
        } else if is_letter(c) {
            self.atom()
        } else {
            parse_longest(self)
        };
        match res {
            Ok(t) => Ok(Some(t)),
            Err(e) => Err(e),
        }
    }
}

/// Whether a token is neither a comment nor whitespace.
pub fn is_significant(t: &Token) -> (r: bool)
    ensures
        r == spec_is_significant(t.deep()),
{
    match t {
        Token::Comment(_) => false,
        Token::Whitespace => false,
        _ => true,
    }
}

/// Turns bytes into tokens; with `all` every token is kept, without it
/// comments and whitespace are left out.
pub fn tokenize_bytes(input: &[u8], all: bool) -> (r: LexResult<Vec<Token>>)
    ensures
        match spec_tokens(input@, 0) {
            Ok(ts) => r matches Ok(v) && spec_deep_tokens(v@) == (if all {
                ts
            } else {
                spec_significant(ts)
            }),
            Err(e) => r matches Err(x) && x == e,
        },
{
    let mut tokens: Vec<Token> = Vec::new();
    let mut tokenizer = Lexer::new(input);
    let ghost mut seen: Seq<TokenView> = Seq::empty();
    proof {
        assert(spec_deep_tokens(tokens@) =~= Seq::<TokenView>::empty());
        if let Ok(s) = spec_tokens(input@, 0) {
            assert(Seq::<TokenView>::empty() + s =~= s);
        }
    }
    loop
        invariant
            tokenizer.wf(),
            tokenizer.input@ == input@,
            spec_tokens(input@, 0) == spec_join(seen, spec_tokens(input@, tokenizer.pos as int)),
            spec_deep_tokens(tokens@) == (if all {
                seen
            } else {
                spec_significant(seen)
            }),
        decreases input@.len() - tokenizer.pos,
    {
        let here: usize = tokenizer.pos;
        let token = match tokenizer.token()? {
            None => {
                proof {
                    assert(seen + Seq::<TokenView>::empty() =~= seen);
                }
                return Ok(tokens);
            },
            Some(token) => token,
        };
        if tokenizer.pos <= here {
            return Err(TokenizeError::UnknownError);
        }
        proof {
            let next = seen.push(token.deep());
            assert(next.drop_last() =~= seen);
            if let Ok(rest) = spec_tokens(input@, tokenizer.pos as int) {
                assert(seen + (seq![token.deep()] + rest) =~= next + rest);
            }
            seen = next;
        }
        if all || is_significant(&token) {
            let ghost before = spec_deep_tokens(tokens@);
            tokens.push(token);
            assert(spec_deep_tokens(tokens@) =~= before.push(token.deep()));
        }
    }
}

/// Turns a script into tokens.
pub fn tokenize_script(input: &str) -> (r: Result<Vec<Token>, TokenizeError>)
    ensures
        match spec_tokens(input.spec_bytes(), 0) {
            Ok(ts) => r matches Ok(v) && spec_deep_tokens(v@) == ts,
            Err(e) => r matches Err(x) && x == e,
        },
{
    tokenize_bytes(input.as_bytes(), true)
}

/// Turns a script into tokens and leaves out comments and whitespace.
pub fn tokenize_script_without_ws(input: &str) -> (r: Result<Vec<Token>, TokenizeError>)
    ensures
        match spec_tokens(input.spec_bytes(), 0) {
            Ok(ts) => r matches Ok(v) && spec_deep_tokens(v@) == spec_significant(ts),
            Err(e) => r matches Err(x) && x == e,
        },
{
    tokenize_bytes(input.as_bytes(), false)
}

} // verus!
