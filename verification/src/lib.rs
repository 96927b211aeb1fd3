//! A small declarative language for named, groupable shell commands.
//!
//! A runfile declares commands, each with aliases, positional arguments,
//! flags and a script body.  The library lexes the text into tokens,
//! parses the tokens into a document of groups and commands, resolves a
//! command by name while enforcing structural invariants, and binds
//! command-line arguments to the declared parameters, producing the
//! environment and interpreter invocation for a caller to execute.

pub mod help;
pub mod laws;
pub mod parse;
pub mod pipeline;
pub mod resolve;
pub mod run;
pub mod text;
pub mod tokenize;

use vstd::prelude::*;

verus! {

/// Parse runfile text: lex it into tokens and fold the tokens into a
/// document.
pub fn parse_runfile(content: &str) -> (r: Result<parse::Runfile, tokenize::LexError>)
    ensures
        match r {
            Ok(rf) => tokenize::spec_tokenize(content@) matches Ok(ts) && rf@
                == parse::spec_parse(ts),
            Err(e) => tokenize::spec_tokenize(content@) == Err::<
                Seq<tokenize::TokenV>,
                tokenize::LexError,
            >(e),
        },
{
    let tokenize_phase = tokenize::TokenizePhase::new();
    let parse_phase = parse::ParsePhase::new();
    match tokenize_phase.tokenize(content) {
        Ok(tokens) => Ok(parse_phase.parse(tokens)),
        Err(e) => Err(e),
    }
}

} // verus!
