//! The I/O error type carried by the library's error enums, and the one
//! write call through which the archive writers hand bytes to their sink.
use vstd::prelude::*;

verus! {

/// `std::io::Error`, carried opaquely.
#[verifier::external_type_specification]
#[verifier::external_body]
pub struct ExIoError(std::io::Error);

/// `std::io::Write::write_all`: writes all of `buf` to `w`, or reports the
/// sink's error. Nothing is stated of the sink's state: what a writer does
/// with the bytes is its own affair.
#[verifier::external_body]
pub(crate) fn write_all<W: std::io::Write>(w: &mut W, buf: &[u8]) -> (r: Result<(), std::io::Error>) {
    w.write_all(buf)
}

} // verus!

verus! {

/// `std::time::SystemTime`, carried opaquely.
#[verifier::external_type_specification]
#[verifier::external_body]
pub struct ExSystemTime(std::time::SystemTime);

/// `std::time::SystemTime::now`: the current time of the system clock.
/// Nothing about it can be stated.
#[verifier::external_body]
pub(crate) fn system_now() -> (t: std::time::SystemTime) {
    std::time::SystemTime::now()
}

/// `std::time::SystemTime::duration_since(UNIX_EPOCH)` in whole seconds,
/// or 0 for a time before the epoch. The clock decides the value, so
/// nothing about it is stated.
#[verifier::external_body]
pub(crate) fn secs_since_epoch(t: &std::time::SystemTime) -> (secs: u64) {
    match t.duration_since(std::time::UNIX_EPOCH) {
        Ok(d) => d.as_secs(),
        Err(_) => 0,
    }
}

} // verus!
