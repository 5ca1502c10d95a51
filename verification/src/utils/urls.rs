//! Addresses.

use vstd::prelude::*;

verus! {

/// Whether `url::Url::parse` accepts `text` as an absolute URL.
pub uninterp spec fn url_accepted(text: Seq<char>) -> bool;

/// `url::Url::parse`: whether the text is an absolute URL.
#[verifier::external_body]
pub(crate) fn url_parses(text: &str) -> (accepted: bool)
    ensures
        accepted == url_accepted(text@),
{
    url::Url::parse(text).is_ok()
}

/// Whether `text` is an absolute URL.
pub fn is_url(text: &str) -> (accepted: bool)
    ensures
        accepted == url_accepted(text@),
{
    url_parses(text)
}

} // verus!
