//! One lookup from end to end, without the network: what to ask the vendor
//! for, and what its reply comes to.

use crate::error::LookupError;
use crate::extract::{extract, extracted};
use crate::json::{json_parsed, parse_value};
use crate::normalize::{normalize, normalized};
use crate::table::PartTable;
use serde_json::Value;
use vstd::prelude::*;

verus! {

/// The address of the vendor's part description, up to the part code.
pub const ENDPOINT: &'static str =
    "https://cart.jlcpcb.com/shoppingCart/smtGood/getComponentDetail?componentCode=";

/// The media type to ask the vendor for.
pub const ACCEPT: &'static str = "application/json";

/// What came of the request to the vendor.
#[derive(Debug)]
pub enum HttpReply {
    /// No reply: the vendor could not be reached.
    Failed,
    /// A reply with its HTTP status and its body.
    Answered { status: u16, body: String },
}

/// The address to ask for the part `code`.
pub open spec fn address_of(code: Seq<char>) -> Seq<char> {
    ENDPOINT@ + code
}

/// The request that the input `raw` leads to: the address for its part
/// code, or `InvalidInput` where it resolves to none.
pub open spec fn planned(raw: Seq<char>) -> Result<Seq<char>, LookupError> {
    match extracted(raw) {
        Some(code) => Ok(address_of(code)),
        None => Err(LookupError::InvalidInput),
    }
}

/// A status in 200..=299.
pub open spec fn is_success(status: u16) -> bool {
    200 <= status < 300
}

/// The JSON value in the body of a reply, or `MalformedResponse`.
pub open spec fn parsed(body: Seq<char>) -> Result<Value, LookupError> {
    match json_parsed(body) {
        Some(v) => Ok(v),
        None => Err(LookupError::MalformedResponse),
    }
}

/// What a reply comes to: `Network` where there is none, `HttpStatus`
/// where its status is no success, `MalformedResponse` where its body is
/// not JSON, and else what its JSON value comes to.
pub open spec fn concluded(reply: HttpReply) -> Result<Seq<(Seq<char>, Seq<char>)>, LookupError> {
    match reply {
        HttpReply::Failed => Err(LookupError::Network),
        HttpReply::Answered { status, body } => if !is_success(status) {
            Err(LookupError::HttpStatus)
        } else {
            match json_parsed(body@) {
                Some(v) => normalized(v),
                None => Err(LookupError::MalformedResponse),
            }
        },
    }
}

/// The address to ask for the part `code`.
pub fn request_url(code: &str) -> (url: String)
    ensures
        url@ == address_of(code@),
{
    let mut url = String::from_str(ENDPOINT);
    url.append(code);
    url
}

/// Resolves the input and gives the address to ask, or `InvalidInput`.
pub fn plan(raw: &str) -> (r: Result<String, LookupError>)
    ensures
        match r {
            Ok(url) => planned(raw@) == Ok::<Seq<char>, LookupError>(url@),
            Err(e) => planned(raw@) == Err::<Seq<char>, LookupError>(e),
        },
{
    match extract(raw) {
        Some(code) => Ok(request_url(code.as_str())),
        None => Err(LookupError::InvalidInput),
    }
}

/// Whether an HTTP status is a success.
pub fn status_is_success(status: u16) -> (r: bool)
    ensures
        r == is_success(status),
{
    200 <= status && status < 300
}

/// Parses the body of a reply as JSON.
pub fn parse_response(body: &str) -> (r: Result<Value, LookupError>)
    ensures
        r == parsed(body@),
{
    match parse_value(body) {
        Ok(v) => Ok(v),
        Err(_) => Err(LookupError::MalformedResponse),
    }
}

/// Turns the reply to a request into the table of the part, or into the
/// error that ends the lookup.
pub fn conclude(reply: &HttpReply) -> (r: Result<PartTable, LookupError>)
    ensures
        match r {
            Ok(table) => concluded(*reply) == Ok::<Seq<(Seq<char>, Seq<char>)>, LookupError>(
                table@,
            ),
            Err(e) => concluded(*reply) == Err::<Seq<(Seq<char>, Seq<char>)>, LookupError>(e),
        },
{
    match reply {
        HttpReply::Failed => Err(LookupError::Network),
        HttpReply::Answered { status, body } => {
            if !status_is_success(*status) {
                return Err(LookupError::HttpStatus);
            }
            match parse_response(body.as_str()) {
                Ok(v) => normalize(&v),
                Err(e) => Err(e),
            }
        },
    }
}

/// The page of the part `code` at LCSC.
pub fn lcsc_page(code: &str) -> (url: String)
    ensures
        url@ == "https://www.lcsc.com/product-detail/"@ + code@ + ".html"@,
{
    let mut url = String::from_str("https://www.lcsc.com/product-detail/");
    url.append(code);
    url.append(".html");
    url
}

/// The page of the part `code` at JLCPCB.
pub fn jlcpcb_page(code: &str) -> (url: String)
    ensures
        url@ == "https://jlcpcb.com/partdetail/"@ + code@,
{
    let mut url = String::from_str("https://jlcpcb.com/partdetail/");
    url.append(code);
    url
}

} // verus!
