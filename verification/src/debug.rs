//! Quoting of untrusted text in messages.
use vstd::prelude::*;

verus! {

/// The form that the standard library's `Debug` gives a text.
pub uninterp spec fn debug_form(s: Seq<char>) -> Seq<char>;

/// `format!("{:?}", s)`, that is `<str as Debug>::fmt`: the text in double quotes,
/// with what does not print escaped. The contract names the result, which depends
/// on the text alone.
#[verifier::external_body]
pub(crate) fn debug_text(s: &str) -> (r: String)
    ensures
        r@ == debug_form(s@),
{
    format!("{:?}", s)
}

} // verus!
