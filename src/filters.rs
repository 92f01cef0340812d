//! Small text helpers for rendering library items in page templates.

use vstd::prelude::*;
use vstd::string::StringExecFns;

verus! {

#[verifier::external_type_specification]
#[verifier::external_body]
pub struct ExTemplateError(askama::Error);

/// Relies on `askama::Error::Custom`: a template error carrying the message
/// "Missing value".
#[verifier::external_body]
fn missing_value_error() -> (r: askama::Error) {
    askama::Error::Custom("Missing value".into())
}

/// `s`, or `default` when `s` is empty.
pub fn if_empty(s: &str, default: &str) -> (r: askama::Result<String>)
    ensures
        r matches Ok(t) && t@ == if s@.len() == 0 { default@ } else { s@ },
{
    let ret = if s.is_empty() { default } else { s };
    Ok(String::from_str(ret))
}

/// The text of `s`, or `default` when it is absent.
pub fn or(s: &Option<String>, default: &str) -> (r: askama::Result<String>)
    ensures
        r matches Ok(t) && t@ == match s {
            Some(v) => v@,
            None => default@,
        },
{
    match s {
        Some(v) => Ok(v.clone()),
        None => Ok(String::from_str(default)),
    }
}

/// The number held by `num`; a template error when it is absent.
pub fn or_err(num: &Option<i64>) -> (r: askama::Result<i64>)
    ensures
        match num {
            Some(n) => r matches Ok(v) && v == n,
            None => r is Err,
        },
{
    match num {
        Some(n) => Ok(*n),
        None => Err(missing_value_error()),
    }
}

} // verus!
