//! A verified parser, validator and serializer for systemd unit files.
//!
//! Text is recognized by a line-oriented grammar, mapped into a typed
//! `SystemdFile` model, and rendered back to text; a byte-level JSON
//! codec carries the model across the JSON boundary. Every operation is
//! a pure function of its input, specified against a mathematical model
//! of the unit-file language.

use vstd::prelude::*;

pub mod grammar;
pub mod laws;
pub mod mapper;
pub mod render;
pub mod schema;

use crate::grammar::{
    spec_valid, spec_tree, spec_error_at, spec_split_lines, SyntaxError, SystemDParser,
};
use crate::mapper::spec_map;
use crate::schema::{SystemdFile, SystemdFileView};

verus! {

/// The model that parsing a valid text yields.
pub open spec fn spec_model(t: Seq<u8>) -> SystemdFileView {
    spec_map(spec_tree(t))
}

/// Parses unit-file text into its model: succeeds exactly on
/// syntactically valid input, and otherwise reports the first offending
/// line. Grammar failures are terminal; they are never downgraded to a
/// partial model.
pub fn parse(input: &[u8]) -> (r: Result<SystemdFile, SyntaxError>)
    ensures
        r is Ok <==> spec_valid(input@),
        r matches Ok(f) ==> f@ == spec_model(input@),
        r matches Err(e) ==> spec_error_at(spec_split_lines(input@), e),
{
    match SystemDParser::tokenize(input) {
        Ok(tree) => Ok(crate::mapper::map(&tree)),
        Err(e) => Err(e),
    }
}

/// Checks syntax only: accepts exactly the inputs `parse` accepts,
/// builds no model, and reports the same first offending line.
pub fn validate(input: &[u8]) -> (r: Result<(), SyntaxError>)
    ensures
        r is Ok <==> spec_valid(input@),
        r matches Err(e) ==> spec_error_at(spec_split_lines(input@), e),
{
    SystemDParser::validate(input)
}

} // verus!
