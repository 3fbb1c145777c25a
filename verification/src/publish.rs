//! The publish step's verified half: the update endpoint's URL, the
//! request body that overwrites the report file in the snippet store,
//! and the classification of the response status. Sending the request
//! and reading the two secrets from the environment happen outside the
//! library.

use vstd::prelude::*;

use crate::strnum::{dec_str, u64_to_string};
use vstd::string::StringExecFns;

verus! {

/// The two secrets the publisher needs, read once at startup and passed
/// in explicitly: the access token and the target document's identifier.
pub struct Config {
    pub token: String,
    pub gist_id: String,
}

/// The URL of the snippet store's update endpoint for one document.
pub fn gist_url(gist_id: &String) -> (r: String)
    ensures
        r@ == "https://api.github.com/gists/"@ + gist_id@,
{
    let mut out = String::from_str("https://api.github.com/gists/");
    out.append(gist_id.as_str());
    out
}

/// A publish response counts as successful exactly when its HTTP status
/// lies in the 2xx range.
pub fn is_success_status(status: u16) -> (r: bool)
    ensures
        r <==> (200 <= status && status < 300),
{
    200 <= status && status < 300
}

/// How a publish response is reported: a 2xx status is success, and any
/// other status yields a diagnostic line for the operator. A failed
/// publish never aborts the run.
pub fn publish_outcome(status: u16) -> (r: Result<(), String>)
    ensures
        r is Ok <==> (200 <= status && status < 300),
        r matches Err(msg) ==> msg@ == "Gist update failed with status: "@ + dec_str(
            status as int,
        ),
{
    if is_success_status(status) {
        Ok(())
    } else {
        let mut msg = String::from_str("Gist update failed with status: ");
        let num = u64_to_string(status as u64);
        msg.append(num.as_str());
        Err(msg)
    }
}

} // verus!
