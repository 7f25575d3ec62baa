//! The calls whose contracts are taken on trust: one into the parser and one
//! into the standard library. Everything else in the crate is proved.

use vstd::prelude::*;

verus! {

/// `String::push` of the standard library: the string afterwards is the string
/// before with `c` appended as its last character.
pub assume_specification[ String::push ](s: &mut String, c: char)
    ensures
        final(s)@ == old(s)@.push(c),
;

/// Calls `syn::parse_str::<syn::Ident>` on `tokens` and gives the identifier
/// that it reads, as text; none where it reports an error.
///
/// Nothing is claimed of the result. Which lexer reads the text depends on the
/// process (inside a procedural macro it is the compiler's), so one text need
/// not read the same everywhere.
#[verifier::external_body]
pub(crate) fn parse_ident(tokens: &str) -> Option<String> {
    match syn::parse_str::<syn::Ident>(tokens) {
        Ok(ident) => Some(ident.to_string()),
        Err(_) => None,
    }
}

} // verus!
