use vstd::prelude::*;

verus! {

/// Relies on chrono's `Utc::now` and `DateTime::to_rfc3339`: reads the
/// system clock and renders the instant as an RFC 3339 string. The
/// clock's value depends on when the call runs, so nothing is promised
/// of the result; every caller must work for any string that comes back.
#[verifier::external_body]
pub(crate) fn now_rfc3339() -> String {
    chrono::Utc::now().to_rfc3339()
}

} // verus!
