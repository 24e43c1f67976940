//! Identifier case conversions done by outside code: `heck` for word-based
//! snake and camel case, std for Unicode lower-casing.
use vstd::prelude::*;

verus! {

/// What `heck::ToSnakeCase::to_snake_case` returns for a string.
pub uninterp spec fn snake_case(s: Seq<char>) -> Seq<char>;

/// What `heck::ToUpperCamelCase::to_upper_camel_case` returns for a string.
pub uninterp spec fn upper_camel_case(s: Seq<char>) -> Seq<char>;

/// What `str::to_lowercase` returns for a string.
pub uninterp spec fn lowercase(s: Seq<char>) -> Seq<char>;

/// Calls `heck::ToSnakeCase::to_snake_case`; its result is a function of the
/// input string alone, named `snake_case`.
#[verifier::external_body]
pub(crate) fn to_snake_case(s: &str) -> (r: String)
    ensures
        r@ == snake_case(s@),
{
    heck::ToSnakeCase::to_snake_case(s)
}

/// Calls `heck::ToUpperCamelCase::to_upper_camel_case`; its result is a
/// function of the input string alone, named `upper_camel_case`.
#[verifier::external_body]
pub(crate) fn to_upper_camel_case(s: &str) -> (r: String)
    ensures
        r@ == upper_camel_case(s@),
{
    heck::ToUpperCamelCase::to_upper_camel_case(s)
}

/// Calls `str::to_lowercase` (Unicode lower-casing, a function of the input
/// alone), named `lowercase`.
#[verifier::external_body]
pub(crate) fn to_lowercase(s: &str) -> (r: String)
    ensures
        r@ == lowercase(s@),
{
    s.to_lowercase()
}

} // verus!
