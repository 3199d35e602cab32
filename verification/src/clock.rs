//! Instants: nanoseconds since the Unix epoch, as `i64`. The clock itself is read
//! outside the library, and each request takes the instant it happens at.
use vstd::prelude::*;

verus! {

/// Nanoseconds in one second.
pub const NANOS_PER_SEC: i64 = 1_000_000_000;

/// The RFC 3339 text that `chrono` writes for the instant `nanos`.
pub uninterp spec fn rfc3339_of(nanos: i64) -> Seq<char>;

/// Writes the instant `nanos` with `chrono`'s `DateTime::from_timestamp_nanos`
/// followed by `to_rfc3339` (which never fails for an `i64` of nanoseconds). The
/// text is named `rfc3339_of(nanos)`; what it holds is not restated here.
#[verifier::external_body]
pub fn rfc3339(nanos: i64) -> (s: String)
    ensures
        s@ == rfc3339_of(nanos),
{
    chrono::DateTime::from_timestamp_nanos(nanos).to_rfc3339()
}

/// The instant a clock reading (`DateTime::timestamp_nanos_opt`) stands for: the
/// reading itself, or `i64::MAX` when the instant is past the last one an `i64` of
/// nanoseconds can hold (2262-04-11).
pub fn instant_from(reading: Option<i64>) -> (t: i64)
    ensures
        t == match reading {
            Some(n) => n,
            None => i64::MAX,
        },
{
    match reading {
        Some(n) => n,
        None => i64::MAX,
    }
}

/// Whether an instant lies strictly after `now - timeout_secs` seconds, the test
/// by which an agent counts as online.
pub open spec fn within(at: int, now: int, timeout_secs: int) -> bool {
    at > now - timeout_secs * NANOS_PER_SEC
}

/// Computes `within` without overflow.
pub fn is_within(at: i64, now: i64, timeout_secs: i64) -> (r: bool)
    ensures
        r == within(at as int, now as int, timeout_secs as int),
{
    let t: i128 = timeout_secs as i128;
    assert(-0x8000_0000_0000_0000 * 1_000_000_000 <= t * 1_000_000_000 <= 0x7fff_ffff_ffff_ffff * 1_000_000_000) by (nonlinear_arith)
        requires -0x8000_0000_0000_0000 <= t <= 0x7fff_ffff_ffff_ffff;
    let cutoff: i128 = (now as i128) - (timeout_secs as i128) * (NANOS_PER_SEC as i128);
    (at as i128) > cutoff
}

} // verus!
