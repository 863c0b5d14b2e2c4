pub mod laws;
pub mod lexer;
pub mod operation;
pub mod parser;
pub mod util;

pub use lexer::lex;
pub use operation::Operation;
pub use parser::parse;

use crate::lexer::{first_unknown, has_unknown, spec_tokens};
use crate::operation::{op_views, SpecOperation};
use crate::parser::error::SpecError;
use vstd::prelude::*;

verus! {

/// A failure of the combined pipeline: the lexing error or the first
/// parsing error.
#[derive(Debug, Clone, PartialEq, Eq, Hash)]
pub enum LexParseError {
    Lex(lexer::Error),
    Parse(parser::Error),
}

impl LexParseError {
    /// The error's display text.
    pub fn render(&self) -> (r: String)
        ensures
            match self {
                LexParseError::Lex(e) => r@ == lexer::spec_lex_error_text(e@),
                LexParseError::Parse(e) => r@ == parser::error::spec_parse_error_text(e@),
            },
    {
        match self {
            LexParseError::Lex(e) => e.render(),
            LexParseError::Parse(e) => e.render(),
        }
    }
}

/// Lexes a source text and parses the tokens: all the operations of the
/// source, or the first lexing or parsing error.
pub fn lex_parse(s: &str) -> (r: Result<Vec<Operation>, LexParseError>)
    ensures
        ({
            let toks = spec_tokens(s@);
            match r {
                Result::Ok(ops) => !has_unknown(toks) && parser::spec_parse(toks) == Result::<
                    Seq<SpecOperation>,
                    SpecError,
                >::Ok(op_views(ops@)),
                Result::Err(err) => match err {
                    LexParseError::Lex(e) => has_unknown(toks) && e@ == first_unknown(toks),
                    LexParseError::Parse(e) => !has_unknown(toks) && parser::spec_parse(toks)
                        == Result::<Seq<SpecOperation>, SpecError>::Err(e@),
                },
            }
        }),
{
    match lexer::lex(s) {
        Result::Ok(tokens) => match parser::parse(tokens) {
            Result::Ok(ops) => Result::Ok(ops),
            Result::Err(e) => Result::Err(LexParseError::Parse(e)),
        },
        Result::Err(e) => Result::Err(LexParseError::Lex(e)),
    }
}

} // verus!
