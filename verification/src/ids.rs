//! Order identifiers: generation at admission, and parsing.
//!
//! Identifiers are opaque 128-bit values; the facade assigns one to every
//! order it admits.  Generation and string parsing are delegated to the
//! uuid crate behind trusted wrappers.

use vstd::prelude::*;

use crate::types::OrderId;

verus! {

/// What parsing an identifier string yields: a function of the string
/// alone (the textual UUID formats the uuid crate accepts).
pub uninterp spec fn parsed_order_id(s: Seq<char>) -> Option<u128>;

/// A freshly generated identifier.
///
/// Relies on `uuid::Uuid::new_v4`: a version-4 UUID built from random
/// bytes.  Nothing is promised of the value; in particular uniqueness is
/// only statistical.
#[verifier::external_body]
pub(crate) fn new_order_id() -> OrderId {
    OrderId { value: uuid::Uuid::new_v4().as_u128() }
}

/// Parse an order identifier from its textual UUID form.
///
/// Relies on `uuid::Uuid::parse_str`: deterministic in its input, returns
/// the parsed value as 128 bits or an error for malformed text.
#[verifier::external_body]
pub(crate) fn parse_order_id(s: &str) -> (r: Option<OrderId>)
    ensures
        r is Some <==> parsed_order_id(s@) is Some,
        r is Some ==> r.unwrap().value == parsed_order_id(s@).unwrap(),
{
    match uuid::Uuid::parse_str(s) {
        Ok(u) => Some(OrderId { value: u.as_u128() }),
        Err(_) => None,
    }
}

} // verus!
