//! Readings from the machine: the wall clock and the operating system's random source.
use vstd::prelude::*;
use rand::TryRng;

verus! {

/// A wall-clock time.
#[verifier::external_type_specification]
#[verifier::external_body]
pub struct ExSystemTime(std::time::SystemTime);

/// The wall clock now (`SystemTime::now`). Nothing is promised of the reading.
#[verifier::external_body]
fn wall_clock_now() -> std::time::SystemTime {
    std::time::SystemTime::now()
}

/// How far `t` lies from the Unix epoch, in whole seconds and nanoseconds
/// (`SystemTime::duration_since` with the epoch): `Ok` at or after it, `Err` with the
/// distance back before it. The nanoseconds of a `Duration` are always below one billion.
#[verifier::external_body]
fn since_epoch(t: &std::time::SystemTime) -> (r: Result<(u64, u32), (u64, u32)>)
    ensures
        match r {
            Ok((_, n)) => n < 1_000_000_000,
            Err((_, n)) => n < 1_000_000_000,
        },
{
    match t.duration_since(std::time::UNIX_EPOCH) {
        Ok(d) => Ok((d.as_secs(), d.subsec_nanos())),
        Err(e) => Err((e.duration().as_secs(), e.duration().subsec_nanos())),
    }
}

/// A reading of the wall clock as a distance from the Unix epoch (see `since_epoch`).
pub(crate) fn system_clock() -> (r: Result<(u64, u32), (u64, u32)>)
    ensures
        match r {
            Ok((_, n)) => n < 1_000_000_000,
            Err((_, n)) => n < 1_000_000_000,
        },
{
    let t = wall_clock_now();
    since_epoch(&t)
}

/// `n` bytes from the operating system's random source (`SysRng::try_fill_bytes`);
/// `None` when the source fails.
#[verifier::external_body]
pub(crate) fn os_random_bytes(n: usize) -> (r: Option<Vec<u8>>)
    ensures
        r matches Some(v) ==> v@.len() == n,
{
    let mut buf = vec![0u8; n];
    rand::rngs::SysRng.try_fill_bytes(&mut buf).ok().map(|_| buf)
}

} // verus!
