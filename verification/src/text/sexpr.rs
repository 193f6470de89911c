//! Forms: the tree that parentheses make of tokens.
use vstd::prelude::*;
use vstd::string::StringSliceAdditionalSpecFns;
use crate::text::parser::ParseError;
use crate::text::InputError;
use crate::text::token::{
    spec_deep_tokens, spec_significant, spec_tokens, tokenize_script_without_ws, TextToken, Token,
    TokenView,
};

verus! {

/// A form: a token that stands alone, or a list of forms between
/// parentheses.
#[derive(Debug, PartialEq, Eq)]
pub enum Sexpr {
    Atom(String),
    Name(String),
    Text(TextToken),
    Nat(u64),
    Int(i64),
    Float(String),
    Equal,
    List(Vec<Sexpr>),
}

/// A form as a value.
pub enum SexprView {
    Atom(Seq<char>),
    Name(Seq<char>),
    Text(Seq<u8>),
    Nat(u64),
    Int(i64),
    Float(Seq<char>),
    Equal,
    List(Seq<SexprView>),
}

impl Sexpr {
    /// The form as a value.
    pub open spec fn deep(self) -> SexprView
        decreases self,
    {
        match self {
            Sexpr::Atom(s) => SexprView::Atom(s@),
            Sexpr::Name(s) => SexprView::Name(s@),
            Sexpr::Text(t) => SexprView::Text(t.0@),
            Sexpr::Nat(n) => SexprView::Nat(n),
            Sexpr::Int(i) => SexprView::Int(i),
            Sexpr::Float(s) => SexprView::Float(s@),
            Sexpr::Equal => SexprView::Equal,
            Sexpr::List(items) => SexprView::List(
                Seq::new(
                    items@.len(),
                    |i: int|
                        if 0 <= i < items@.len() {
                            items@[i].deep()
                        } else {
                            arbitrary()
                        },
                ),
            ),
        }
    }
}

/// Forms as values.
pub open spec fn spec_deep_forms(s: Seq<Sexpr>) -> Seq<SexprView> {
    Seq::new(s.len(), |i: int| s[i].deep())
}

/// Why tokens are no form.
#[derive(Debug, Copy, Clone, PartialEq, Eq, Structural)]
pub enum SexprError {
    /// The tokens end inside a list, or where a form should begin.
    UnexpectedEof,
    /// A `)` stands where a form should begin.
    UnexpectedRightParen,
}

/// A result with the forms `acc` in front.
pub open spec fn spec_forms_after(acc: Seq<SexprView>, r: Result<(Seq<SexprView>, int), SexprError>) -> Result<
    (Seq<SexprView>, int),
    SexprError,
> {
    match r {
        Ok((s, q)) => Ok((acc + s, q)),
        Err(e) => Err(e),
    }
}

/// The form at `pos` and the position after it. Comments and whitespace
/// are passed over.
pub open spec fn spec_form(ts: Seq<TokenView>, pos: int) -> Result<(SexprView, int), SexprError>
    decreases ts.len() - pos, 0nat,
{
    if pos < 0 || pos >= ts.len() {
        Err(SexprError::UnexpectedEof)
    } else {
        match ts[pos] {
            TokenView::LeftParen => match spec_forms(ts, pos + 1) {
                Err(e) => Err(e),
                Ok((items, q)) => Ok((SexprView::List(items), q)),
            },
            TokenView::RightParen => Err(SexprError::UnexpectedRightParen),
            TokenView::Atom(a) => Ok((SexprView::Atom(a), pos + 1)),
            TokenView::Name(n) => Ok((SexprView::Name(n), pos + 1)),
            TokenView::Text(t) => Ok((SexprView::Text(t), pos + 1)),
            TokenView::Nat(n) => Ok((SexprView::Nat(n), pos + 1)),
            TokenView::Int(i) => Ok((SexprView::Int(i), pos + 1)),
            TokenView::Float(f) => Ok((SexprView::Float(f), pos + 1)),
            TokenView::Equal => Ok((SexprView::Equal, pos + 1)),
            TokenView::Comment(_) => spec_form(ts, pos + 1),
            TokenView::Whitespace => spec_form(ts, pos + 1),
        }
    }
}

/// The forms of a list from `pos` on, up to the `)` that closes it, and
/// the position after that.
pub open spec fn spec_forms(ts: Seq<TokenView>, pos: int) -> Result<(Seq<SexprView>, int), SexprError>
    decreases ts.len() - pos, 1nat,
{
    if pos < 0 || pos >= ts.len() {
        Err(SexprError::UnexpectedEof)
    } else if ts[pos] is RightParen {
        Ok((Seq::empty(), pos + 1))
    } else if ts[pos] is Comment || ts[pos] is Whitespace {
        spec_forms(ts, pos + 1)
    } else {
        match spec_form(ts, pos) {
            Err(e) => Err(e),
            Ok((x, q)) => if q <= pos || q > ts.len() {
                Err(SexprError::UnexpectedEof)
            } else {
                spec_forms_after(seq![x], spec_forms(ts, q))
            },
        }
    }
}

/// Reads the form at `pos` and returns it with the position after it.
pub fn tokens_to_sexpr(tokens: &Vec<Token>, pos: usize) -> (r: Result<(Sexpr, usize), SexprError>)
    ensures
        match spec_form(spec_deep_tokens(tokens@), pos as int) {
            Ok((v, next)) => r matches Ok((x, q)) && x.deep() == v && q == next && pos < q <= tokens@.len(),
            Err(e) => r matches Err(x) && x == e,
        },
    decreases tokens@.len() - pos, 0nat,
{
    if pos >= tokens.len() {
        return Err(SexprError::UnexpectedEof);
    }
    let ghost ts = spec_deep_tokens(tokens@);
    assert(ts[pos as int] == tokens@[pos as int].deep());
    match &tokens[pos] {
        Token::LeftParen => {
            let (items, q) = list_to_sexprs(tokens, pos + 1)?;
            let list = Sexpr::List(items);
            assert(list.deep()->List_0 =~= spec_deep_forms(list->List_0@));
            Ok((list, q))
        },
        Token::RightParen => Err(SexprError::UnexpectedRightParen),
        Token::Atom(a) => Ok((Sexpr::Atom(a.clone()), pos + 1)),
        Token::Name(n) => Ok((Sexpr::Name(n.clone()), pos + 1)),
        Token::Text(t) => Ok((Sexpr::Text(TextToken(copy_bytes(&t.0))), pos + 1)),
        Token::Nat(n) => Ok((Sexpr::Nat(*n), pos + 1)),
        Token::Int(i) => Ok((Sexpr::Int(*i), pos + 1)),
        Token::Float(f) => Ok((Sexpr::Float(f.clone()), pos + 1)),
        Token::Equal => Ok((Sexpr::Equal, pos + 1)),
        Token::Comment(_) => tokens_to_sexpr(tokens, pos + 1),
        Token::Whitespace => tokens_to_sexpr(tokens, pos + 1),
    }
}

/// A copy of bytes.
pub fn copy_bytes(bytes: &Vec<u8>) -> (r: Vec<u8>)
    ensures
        r@ == bytes@,
{
    let mut out: Vec<u8> = Vec::new();
    let mut i: usize = 0;
    while i < bytes.len()
        invariant
            i <= bytes@.len(),
            out@ == bytes@.take(i as int),
        decreases bytes@.len() - i,
    {
        out.push(bytes[i]);
        i = i + 1;
        assert(out@ =~= bytes@.take(i as int));
    }
    assert(bytes@.take(i as int) =~= bytes@);
    out
}

/// Reads the forms of a list up to the `)` that closes it.
pub fn list_to_sexprs(tokens: &Vec<Token>, pos: usize) -> (r: Result<(Vec<Sexpr>, usize), SexprError>)
    ensures
        match spec_forms(spec_deep_tokens(tokens@), pos as int) {
            Ok((v, next)) => r matches Ok((x, q)) && spec_deep_forms(x@) == v && q == next && pos
                < q <= tokens@.len(),
            Err(e) => r matches Err(x) && x == e,
        },
    decreases tokens@.len() - pos, 1nat,
{
    let mut exprs: Vec<Sexpr> = Vec::new();
    let mut at: usize = pos;
    let ghost ts = spec_deep_tokens(tokens@);
    proof {
        assert(spec_deep_forms(exprs@) =~= Seq::<SexprView>::empty());
        if let Ok((s, q)) = spec_forms(ts, pos as int) {
            assert(Seq::<SexprView>::empty() + s =~= s);
        }
    }
    loop
        invariant
            pos <= at,
            ts == spec_deep_tokens(tokens@),
            spec_forms(ts, pos as int) == spec_forms_after(
                spec_deep_forms(exprs@),
                spec_forms(ts, at as int),
            ),
        decreases tokens@.len() - at,
    {
        if at >= tokens.len() {
            return Err(SexprError::UnexpectedEof);
        }
        assert(ts[at as int] == tokens@[at as int].deep());
        let ghost acc = spec_deep_forms(exprs@);
        match &tokens[at] {
            Token::RightParen => {
                proof {
                    assert(acc + Seq::<SexprView>::empty() =~= acc);
                }
                return Ok((exprs, at + 1));
            },
            Token::Comment(_) => {
                at = at + 1;
            },
            Token::Whitespace => {
                at = at + 1;
            },
            _ => {
                let (expr, q) = tokens_to_sexpr(tokens, at)?;
                proof {
                    if let Ok((rest, e)) = spec_forms(ts, q as int) {
                        assert(acc + (seq![expr.deep()] + rest) =~= acc.push(expr.deep()) + rest);
                    }
                }
                exprs.push(expr);
                proof {
                    assert(spec_deep_forms(exprs@) =~= acc.push(expr.deep()));
                }
                at = q;
            },
        }
    }
}

/// The error of the text format that an error of nesting stands for.
pub open spec fn spec_nesting_error(e: SexprError) -> ParseError {
    match e {
        SexprError::UnexpectedEof => ParseError::UnexpectedEot,
        SexprError::UnexpectedRightParen => ParseError::FailedExpectedToken,
    }
}

/// Reads the first form of a text.
pub fn parse_module_to_sexpr(input: &str) -> (r: Result<Sexpr, InputError>)
    ensures
        match spec_tokens(input.spec_bytes(), 0) {
            Err(e) => r matches Err(x) && x == InputError::Tokenizing(e),
            Ok(ts) => match spec_form(spec_significant(ts), 0) {
                Err(e) => r matches Err(x) && x == InputError::Parsing(spec_nesting_error(e)),
                Ok((v, _)) => r matches Ok(x) && x.deep() == v,
            },
        },
{
    let tokens = match tokenize_script_without_ws(input) {
        Ok(t) => t,
        Err(e) => {
            return Err(InputError::Tokenizing(e));
        },
    };
    match tokens_to_sexpr(&tokens, 0) {
        Ok((sexpr, _)) => Ok(sexpr),
        Err(SexprError::UnexpectedEof) => Err(InputError::Parsing(ParseError::UnexpectedEot)),
        Err(SexprError::UnexpectedRightParen) => Err(
            InputError::Parsing(ParseError::FailedExpectedToken),
        ),
    }
}

} // verus!
