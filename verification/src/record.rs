use vstd::prelude::*;
use crate::errors::LookupError;
use crate::lookup::{lookup_outcome, spec_lookup_outcome};

verus! {

/// One credential as the extractor hands it over: a display name, a
/// username, and the plaintext password to check.
pub struct CredentialRecord {
    pub name: String,
    pub username: String,
    pub password: String,
}

/// A credential paired with the number of times its password was seen in
/// the breach corpus.
pub struct BreachResult {
    pub record: CredentialRecord,
    pub breach_count: u32,
}

/// Decides whether an export item carries a checkable credential: the item
/// must have a login part, and that login both a username and a password.
/// Incomplete items yield no record.
pub fn extract_credential(name: String, login: Option<(Option<String>, Option<String>)>) -> (r:
    Option<CredentialRecord>)
    ensures
        match login {
            Some((Some(username), Some(password))) => r == Some(
                (CredentialRecord { name, username, password }),
            ),
            _ => r == None::<CredentialRecord>,
        },
{
    match login {
        Some((Some(username), Some(password))) => Some(
            CredentialRecord { name, username, password },
        ),
        _ => None,
    }
}

impl BreachResult {
    /// Pairs a record with the count its lookup returned.
    pub fn pair(record: CredentialRecord, breach_count: u32) -> (r: BreachResult)
        ensures
            r.record == record,
            r.breach_count == breach_count,
    {
        BreachResult { record, breach_count }
    }

    /// Whether the password was seen in the breach corpus at all: only such
    /// results are worth reporting.
    pub fn is_breached(&self) -> (r: bool)
        ensures
            r == (self.breach_count > 0),
    {
        self.breach_count > 0
    }
}

/// Completes one credential's lookup from the response to its range
/// request: the record is paired with its breach count, and any lookup
/// error passes through unchanged.
pub fn breach_result_of(record: CredentialRecord, status: u16, body: &[u8]) -> (r: Result<
    BreachResult,
    LookupError,
>)
    ensures
        match spec_lookup_outcome(vstd::utf8::encode_utf8(record.password@), status, body@) {
            Ok(count) => r == Ok::<BreachResult, LookupError>(
                (BreachResult { record, breach_count: count }),
            ),
            Err(e) => r == Err::<BreachResult, LookupError>(e),
        },
{
    match lookup_outcome(record.password.as_str().as_bytes(), status, body) {
        Ok(count) => Ok(BreachResult { record, breach_count: count }),
        Err(e) => Err(e),
    }
}

} // verus!
