//! Access to the monotonic clock for timestamps that the library only carries.
use vstd::prelude::*;

verus! {

#[verifier::external_type_specification]
#[verifier::external_body]
pub struct ExInstant(std::time::Instant);

/// Reads the monotonic clock (`std::time::Instant::now`). Nothing is
/// claimed of the value: it depends on the moment of the call.
#[verifier::external_body]
pub(crate) fn now() -> std::time::Instant {
    std::time::Instant::now()
}

/// `Instant::elapsed`: the time since `i`. Nothing is claimed of the
/// value: it depends on the moment of the call.
#[verifier::external_body]
pub(crate) fn elapsed(i: &std::time::Instant) -> std::time::Duration {
    i.elapsed()
}

/// `Duration::as_secs`: the whole seconds of a duration.
#[verifier::external_body]
pub(crate) fn std_duration_secs(d: &std::time::Duration) -> u64 {
    d.as_secs()
}

/// `Duration::subsec_nanos`: the sub-second part of a duration, which the
/// documentation bounds below one billion.
#[verifier::external_body]
pub(crate) fn std_duration_subsec_nanos(d: &std::time::Duration) -> (n: u32)
    ensures
        n < 1_000_000_000,
{
    d.subsec_nanos()
}

/// The time elapsed since `i`, as a `crate::time::Duration`.
pub fn elapsed_since(i: &std::time::Instant) -> (d: crate::time::Duration)
    ensures
        d.wf(),
{
    let e = elapsed(i);
    crate::time::Duration::new(std_duration_secs(&e), std_duration_subsec_nanos(&e))
}

/// `Instant` is `Copy`; its `clone` returns the same instant.
pub assume_specification [<std::time::Instant as std::clone::Clone>::clone](i: &std::time::Instant) -> (r: std::time::Instant)
    ensures
        r == *i,
;

} // verus!
