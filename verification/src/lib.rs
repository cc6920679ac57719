//! A parser and evaluator for a small expression language in the style of Nix:
//! scalars, interpolated strings, lists, attribute sets with dotted paths,
//! `+` and `-`, `let`, `with` and `inherit`, and path literals.
//!
//! [`parser::parse`] turns source text into a [`NixExpr`]; [`nix_eval`]
//! reduces a [`NixExpr`] to a value under a [`Scope`].

pub mod ast;
pub mod bindings;
pub mod equality;
pub mod eval;
pub mod grammar;
pub mod laws;
pub mod parser;
pub mod path;
pub mod syntax;
pub mod text;

pub use ast::{Bindings, NixBinaryOp, NixExpr, NixFloat, NixStringPart, NixUnaryOp, NixValue};
pub use eval::{nix_eval, EvaluationError, Scope};
pub use grammar::{ParseError, ParseErrorKind, Rule};
pub use parser::NixParser;

use vstd::prelude::*;

verus! {

/// Whether `r` is what parsing the whole of `s` gives: the expression, or
/// the message of the error.
pub open spec fn is_reading_of(r: Result<NixExpr, String>, s: Seq<char>, env: syntax::PathEnv) -> bool {
    match r {
        Ok(e) => syntax::source(s, env) matches grammar::Parsed::Done { value, .. } && value == e@,
        Err(msg) => syntax::source(s, env) matches grammar::Parsed::Failed { error } && msg@
            == grammar::message_of(error),
    }
}

/// Parses `input` and gives the message of the error where it cannot be
/// parsed. Relative paths are taken from `root`, `~/` paths from the home
/// directory of the user, as far as it is known.
pub fn nix_str(input: &str, root: &str) -> (r: Result<NixExpr, String>)
    ensures
        exists|home: Option<Seq<char>>|
            is_reading_of(r, input@, syntax::PathEnv { root: root@, home }),
{
    match parser::parse(input, root) {
        Ok(e) => Ok(e),
        Err(err) => {
            let msg = err.message();
            let ghost home = choose|home: Option<Seq<char>>|
                parser::is_parse_of(Err(err), input@, syntax::PathEnv { root: root@, home });
            assert(is_reading_of(Err(msg), input@, syntax::PathEnv { root: root@, home }));
            Err(msg)
        },
    }
}

} // verus!
