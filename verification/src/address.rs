//! Addresses of the services that data is fetched from.
//!
//! Whether a text is an address, and how the address is written in full,
//! is for the `url` crate to say. Both depend on the text alone and are given
//! names here.

use vstd::prelude::*;

verus! {

/// The error that `url` reports for text that is no address.
#[verifier::external_type_specification]
#[verifier::external_body]
pub struct ExUrlError(url::ParseError);

/// The absolute address that `text` writes, as `url` writes it; `None`
/// where `text` is no absolute address.
pub uninterp spec fn absolute_url(text: Seq<char>) -> Option<Seq<char>>;

/// The absolute address that `text` writes, with the parameter `key=value`
/// added to its query, as `url` writes it; `None` where `text` is no absolute
/// address.
pub uninterp spec fn absolute_url_with(text: Seq<char>, key: Seq<char>, value: Seq<char>) -> Option<
    Seq<char>,
>;

/// Calls `Url::parse` and takes the address as the text that `url` holds
/// for it. The contract claims only that the outcome is the one named
/// [`absolute_url`].
#[verifier::external_body]
fn parse(text: &str) -> (address: Result<String, url::ParseError>)
    ensures
        address matches Ok(a) ==> absolute_url(text@) == Some(a@),
        address is Err ==> absolute_url(text@) is None,
{
    match url::Url::parse(text) {
        Ok(address) => Ok(address.into()),
        Err(e) => Err(e),
    }
}

/// Calls `Url::parse_with_params` with the one parameter `key=value` and
/// takes the address as the text that `url` holds for it. The contract
/// claims only that the outcome is the one named [`absolute_url_with`].
#[verifier::external_body]
fn parse_with(text: &str, key: &str, value: &str) -> (address: Result<String, url::ParseError>)
    ensures
        address matches Ok(a) ==> absolute_url_with(text@, key@, value@) == Some(a@),
        address is Err ==> absolute_url_with(text@, key@, value@) is None,
{
    match url::Url::parse_with_params(text, [(key, value)]) {
        Ok(address) => Ok(address.into()),
        Err(e) => Err(e),
    }
}

/// The absolute address that `text` writes, or `None` where it writes none.
pub fn address(text: &str) -> (found: Option<String>)
    ensures
        crate::dates::text_of(found) == absolute_url(text@),
{
    match parse(text) {
        Ok(a) => Some(a),
        Err(_) => None,
    }
}

/// The absolute address that `text` writes, with the parameter `key=value`
/// added to its query, or `None` where `text` writes no address.
pub fn address_with(text: &str, key: &str, value: &str) -> (found: Option<String>)
    ensures
        crate::dates::text_of(found) == absolute_url_with(text@, key@, value@),
{
    match parse_with(text, key, value) {
        Ok(a) => Some(a),
        Err(_) => None,
    }
}

} // verus!
