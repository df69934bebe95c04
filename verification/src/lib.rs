//! A small docopt-style command-line grammar library.
//!
//! A usage text (a `Usage:` block plus an optional `Options:` block) is
//! compiled into a pattern tree; a concrete argument vector is then matched
//! against that tree, yielding a map from every declared symbol to its bound
//! or default value.

use vstd::prelude::*;

pub mod pattern;
pub mod text;
pub mod value;
pub mod grammar;
pub mod argv;
pub mod matcher;
pub mod compile;

verus! {

pub use value::{map_from_alist, same_args};

/// Why a parse failed: the usage text itself is malformed, or the
/// argument vector does not satisfy it.
#[derive(Debug, PartialEq, Eq)]
pub enum ParseError {
    Usage(grammar::UsageError),
    Match(grammar::MatchError),
}

/// Compiles the usage text and matches the argument vector (without the
/// program name) against it in one step: the value map binding every
/// declared symbol, or the first error.
pub fn parse(doc: &str, argv: &Vec<String>) -> (r: Result<value::ValueMap, ParseError>)
    ensures
        ({
            let c = compile::compile_model(doc@);
            match r {
                Result::Ok(vm) => c matches Result::Ok(g) && matcher::match_argv(
                    g,
                    text::strings_model(argv@),
                ) == Result::<Map<Seq<char>, value::ValueModel>, grammar::MatchError>::Ok(
                    vm.model(),
                ),
                Result::Err(ParseError::Usage(e)) => c == Result::<
                    grammar::GrammarModel,
                    grammar::UsageError,
                >::Err(e),
                Result::Err(ParseError::Match(e)) => c matches Result::Ok(g) && matcher::match_argv(
                    g,
                    text::strings_model(argv@),
                ) == Result::<Map<Seq<char>, value::ValueModel>, grammar::MatchError>::Err(e),
            }
        }),
{
    match compile::compile(doc) {
        Result::Err(e) => Result::Err(ParseError::Usage(e)),
        Result::Ok(g) => match g.parse_argv(argv) {
            Result::Err(e) => Result::Err(ParseError::Match(e)),
            Result::Ok(vm) => Result::Ok(vm),
        },
    }
}

/// Parses an argument vector that is known to satisfy the usage text.
/// Callers that cannot establish that use `parse`, which reports the
/// error instead.
pub fn get_args(doc: &str, argv: &Vec<String>) -> (r: value::ValueMap)
    requires
        compile::compile_model(doc@) matches Result::Ok(g) && matcher::match_argv(
            g,
            text::strings_model(argv@),
        ) is Ok,
    ensures
        compile::compile_model(doc@) matches Result::Ok(g) && matcher::match_argv(
            g,
            text::strings_model(argv@),
        ) == Result::<Map<Seq<char>, value::ValueModel>, grammar::MatchError>::Ok(r.model()),
{
    match parse(doc, argv) {
        Result::Ok(vm) => vm,
        Result::Err(_) => {
            proof {
                assert(false);
            }
            vstd::pervasive::unreached()
        },
    }
}

} // verus!
