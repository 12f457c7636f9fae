//! Wall-clock readings. The values depend on the clock, so nothing is
//! assumed about them; every caller states what holds whatever came back.

use vstd::prelude::*;

verus! {

/// Relies on chrono::Local::now and DateTime::to_rfc3339 to format the
/// current local time as an RFC 3339 timestamp.
#[verifier::external_body]
pub(crate) fn now_rfc3339() -> String {
    chrono::Local::now().to_rfc3339()
}

/// Relies on chrono::Local::now and DateTime::timestamp to render the
/// current time as decimal seconds since the epoch.
#[verifier::external_body]
pub(crate) fn now_stamp() -> String {
    chrono::Local::now().timestamp().to_string()
}

} // verus!
