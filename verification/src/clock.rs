//! Server time, read through chrono. The relay logic itself is verified for
//! every clock reading; these items only obtain the reading and render it.
use vstd::prelude::*;

verus! {

/// Milliseconds since the Unix epoch of 9999-12-31T23:59:59.999Z, the last
/// instant the relay will render.
pub const MAX_STAMP_MS: i64 = 253402300799999;

/// The RFC 3339 text chrono renders for an instant given as milliseconds
/// since the Unix epoch. Left uninterpreted: it stands for the result of
/// `DateTime::to_rfc3339`, which depends on the instant alone.
pub uninterp spec fn rfc3339_of(ms: i64) -> Seq<char>;

/// Relies on chrono's `DateTime::<Utc>::from_timestamp_millis`, which is
/// `Some` for every instant within range (far beyond `MAX_STAMP_MS`), and on
/// `DateTime::to_rfc3339`, whose result depends on the instant alone.
#[verifier::external_body]
pub(crate) fn rfc3339_of_millis(ms: i64) -> (r: String)
    requires
        0 <= ms <= MAX_STAMP_MS,
    ensures
        r@ == rfc3339_of(ms),
{
    match chrono::DateTime::<chrono::Utc>::from_timestamp_millis(ms) {
        Some(dt) => dt.to_rfc3339(),
        None => String::new(),
    }
}

/// Relies on chrono's `Utc::now` and `DateTime::timestamp_millis`: the
/// current time. `Utc::now` does not return at all on a system clock set
/// before the Unix epoch, so whenever the call returns, the reading is
/// non-negative.
#[verifier::external_body]
pub(crate) fn now_millis() -> (r: i64)
    ensures
        r >= 0,
{
    chrono::Utc::now().timestamp_millis()
}

} // verus!
