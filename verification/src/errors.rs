use vstd::prelude::*;

verus! {

/// Why a breach lookup failed.
///
/// `TransportError` stands for a network failure (connection, DNS, TLS);
/// the caller that performs the request maps its transport error to this
/// variant. `ServiceError` carries the HTTP status of a non-200 response.
/// `ParseError` means the response line for the queried suffix could not
/// be read as a decimal count.
#[derive(Clone, Copy, Debug, PartialEq, Eq, Structural)]
pub enum LookupError {
    TransportError,
    ServiceError { status: u16 },
    ParseError,
}

} // verus!
