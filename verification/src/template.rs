//! The page template, a Mustache text in which the fields of a document are
//! put.

use vstd::prelude::*;

verus! {

/// Whether `ramhorns::Template::new` compiles the template text `source`.
pub uninterp spec fn template_compiles(source: Seq<char>) -> bool;

/// Calls `ramhorns::Template::new`, and tells whether it gave a template or
/// an error. Whether a text compiles depends on the text alone; nothing else
/// is claimed of it.
#[verifier::external_body]
pub(crate) fn compiles(source: &str) -> (ok: bool)
    ensures
        ok == template_compiles(source@),
{
    match ramhorns::Template::new(source) {
        Ok(_) => true,
        Err(_) => false,
    }
}

} // verus!
