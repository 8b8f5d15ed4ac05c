//! Percent-encoding of URL components, done by the url_escape crate.

use vstd::prelude::*;

verus! {

/// What `url_escape::encode_component` makes of a string: the text with every
/// character outside the component-safe set percent-encoded.
pub uninterp spec fn component_encoding(s: Seq<char>) -> Seq<char>;

/// Relies on url_escape::encode_component, which percent-encodes a URI
/// component and whose result depends on the text alone.
#[verifier::external_body]
pub(crate) fn encode_component(s: &str) -> (r: String)
    ensures
        r@ == component_encoding(s@),
{
    url_escape::encode_component(s).to_string()
}

} // verus!
