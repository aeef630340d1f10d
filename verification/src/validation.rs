//! Validation of create requests: the rules a product must satisfy before
//! it is admitted to the store, with the exact rejection message for each
//! violated rule.

use vstd::prelude::*;
use vstd::string::StringExecFns;
use vstd::utf8::encode_utf8;
use crate::models::CreateProductRequest;

verus! {

/// A rejected create request, carrying a human-readable reason.
#[derive(Debug)]
pub struct ValidationError {
    message: String,
}

impl ValidationError {
    /// The characters of the stored message.
    pub closed spec fn message_view(&self) -> Seq<char> {
        self.message@
    }

    pub fn new(message: String) -> (e: Self)
        ensures
            e.message_view() == message@,
    {
        Self { message }
    }

    /// The stored message, for callers that report the failure.
    pub fn message(&self) -> (m: &str)
        ensures
            m@ == self.message_view(),
    {
        self.message.as_str()
    }
}

/// A request is admitted when the name and category are non-empty, the
/// price is positive, and any description is at least 10 bytes long.
pub open spec fn valid_request(req: CreateProductRequest) -> bool {
    &&& req.name@.len() > 0
    &&& req.price > 0
    &&& req.category@.len() > 0
    &&& match req.description {
        Option::Some(d) => encode_utf8(d@).len() >= 10,
        Option::None => true,
    }
}

/// The message reported for a rejected request: the rules are checked in
/// a fixed order and the first violated one is reported.
pub open spec fn rejection_message(req: CreateProductRequest) -> Seq<char> {
    if req.name@.len() == 0 {
        "Product name cannot be empty"@
    } else if req.price <= 0 {
        "Product price must be greater than 0"@
    } else if req.category@.len() == 0 {
        "Product category cannot be empty"@
    } else {
        "Product description must be at least 10 characters long"@
    }
}

/// Admits a request if and only if it satisfies `valid_request`; a
/// rejection carries the message of the first violated rule.
pub fn validate_product(product: &CreateProductRequest) -> (r: Result<(), ValidationError>)
    ensures
        r is Ok <==> valid_request(*product),
        r matches Err(e) ==> e.message_view() == rejection_message(*product),
{
    if product.name.as_str().is_empty() {
        return Err(ValidationError::new(String::from_str("Product name cannot be empty")));
    }
    if product.price <= 0 {
        return Err(ValidationError::new(String::from_str("Product price must be greater than 0")));
    }
    if product.category.as_str().is_empty() {
        return Err(ValidationError::new(String::from_str("Product category cannot be empty")));
    }
    if let Option::Some(description) = &product.description {
        if description.as_str().as_bytes().len() < 10 {
            return Err(
                ValidationError::new(
                    String::from_str("Product description must be at least 10 characters long"),
                ),
            );
        }
    }
    Ok(())
}

} // verus!
