//! The text format: tokens, forms, and the lowering of forms to a module.
pub mod parser;
pub mod sexpr;
pub mod token;

pub use token::tokenize_script;
pub use token::tokenize_script_without_ws;

use vstd::prelude::*;
use vstd::string::StringSliceAdditionalSpecFns;
use crate::repr::{Module, ModuleView};
use parser::{spec_module, ParseError, ParseErrorView, Parser};
use token::{spec_significant, spec_tokens, TokenizeError};

verus! {

/// Why a text is no module: its tokens, or what the tokens say.
#[derive(Debug, PartialEq, Eq)]
pub enum InputError {
    Parsing(ParseError),
    Tokenizing(TokenizeError),
}

/// An error of reading a text as a value.
pub enum InputErrorView {
    Parsing(ParseErrorView),
    Tokenizing(TokenizeError),
}

impl InputError {
    pub open spec fn deep(self) -> InputErrorView {
        match self {
            InputError::Parsing(e) => InputErrorView::Parsing(e.deep()),
            InputError::Tokenizing(e) => InputErrorView::Tokenizing(e),
        }
    }
}

/// The module that a text describes: the text is cut into tokens,
/// comments and whitespace are left out, and the tokens are read as one
/// module form. Tokens after the module are not looked at.
pub open spec fn spec_parse_module(input: Seq<u8>) -> Result<ModuleView, InputErrorView> {
    match spec_tokens(input, 0) {
        Err(e) => Err(InputErrorView::Tokenizing(e)),
        Ok(ts) => match spec_module(spec_significant(ts), 0) {
            Err(e) => Err(InputErrorView::Parsing(e)),
            Ok((m, _)) => Ok(m),
        },
    }
}

/// Reads a module from its text.
pub fn parse_module(input: &str) -> (r: Result<Module, InputError>)
    ensures
        match spec_parse_module(input.spec_bytes()) {
            Ok(m) => r matches Ok(x) && x.deep() == m,
            Err(e) => r matches Err(x) && x.deep() == e,
        },
{
    let tokens = match tokenize_script_without_ws(input) {
        Ok(t) => t,
        Err(e) => {
            return Err(InputError::Tokenizing(e));
        },
    };
    let mut parser = Parser::new(tokens.as_slice());
    match parser.module() {
        Ok(m) => Ok(m),
        Err(e) => Err(InputError::Parsing(e)),
    }
}

} // verus!
