use rand::Rng;
use vstd::prelude::*;

verus! {

/// Calls `gen_range` of rand's thread-local generator. The number lies in the closed range; which
/// one it is is left to chance. The call panics on an empty range.
#[verifier::external_body]
fn random_in_range(min: u64, max: u64) -> (r: u64)
    requires
        min <= max,
    ensures
        min <= r <= max,
{
    rand::thread_rng().gen_range(min..=max)
}

/// `r` is a number that was drawn from the range.
pub closed spec fn drawn_between(min: u64, max: u64, r: u64) -> bool {
    call_ensures(random_in_range, (min, max), r)
}

/// Numbers that were drawn came back from `random_in_range`.
proof fn drawn_numbers_come_from_the_generator(min: u64, max: u64, r: u64)
    requires
        drawn_between(min, max, r),
    ensures
        call_ensures(random_in_range, (min, max), r),
        min <= r <= max,
{
}

/// Calls `source` on the range and hands on what it gave.
fn drawn_with<F: Fn(u64, u64) -> u64>(source: F, min: u64, max: u64) -> (r: u64)
    requires
        call_requires(source, (min, max)),
    ensures
        call_ensures(source, (min, max), r),
{
    source(min, max)
}

/// A random election timeout, in milliseconds, between the two given. Which one it is is left to
/// chance.
pub fn random_election_timeout(min_ms: u64, max_ms: u64) -> (r: u64)
    requires
        min_ms <= max_ms,
    ensures
        min_ms <= r <= max_ms,
        drawn_between(min_ms, max_ms, r),
{
    drawn_with(random_in_range, min_ms, max_ms)
}

} // verus!
