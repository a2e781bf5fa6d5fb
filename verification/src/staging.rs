//! Staging directories: each download first lands in a fresh directory under
//! the download directory, named by the wall-clock time in nanoseconds and a
//! process-wide counter.

use vstd::prelude::*;
use crate::text::{decimal, push_char, push_decimal};

verus! {

#[verifier::external_type_specification]
#[verifier::external_body]
pub struct ExSystemTime(std::time::SystemTime);

/// The path `{download_dir}/{nanos}-{n}`.
pub open spec fn staging_path(download_dir: Seq<char>, nanos: nat, n: nat) -> Seq<char> {
    download_dir + seq!['/'] + decimal(nanos) + seq!['-'] + decimal(n)
}

/// The staging path for this download directory, time stamp and counter
/// value.
pub fn staging_dir_path(download_dir: &str, nanos: u128, n: u64) -> (r: String)
    ensures
        r@ == staging_path(download_dir@, nanos as nat, n as nat),
{
    let mut r = download_dir.to_string();
    push_char(&mut r, '/');
    push_decimal(&mut r, nanos);
    push_char(&mut r, '-');
    push_decimal(&mut r, n as u128);
    assert(r@ =~= staging_path(download_dir@, nanos as nat, n as nat));
    r
}

/// The current time (`std::time::SystemTime::now`); nothing is promised of
/// it.
#[verifier::external_body]
fn system_now() -> std::time::SystemTime {
    std::time::SystemTime::now()
}

/// `t.duration_since(UNIX_EPOCH)`, `None` when `t` lies before the epoch;
/// nothing is promised of the duration.
#[verifier::external_body]
fn since_unix_epoch(t: &std::time::SystemTime) -> Option<core::time::Duration> {
    match t.duration_since(std::time::UNIX_EPOCH) {
        Ok(d) => Some(d),
        Err(_) => None,
    }
}

/// `Duration::as_nanos`; the duration is opaque here, so nothing is stated.
#[verifier::external_body]
fn duration_nanos(d: &core::time::Duration) -> u128 {
    d.as_nanos()
}

/// Takes the next value of the staging counter (`fetch_add(1)`, relaxed);
/// other threads may take values too, so nothing is promised of it.
fn next_staging_number(counter: &std::sync::atomic::AtomicU64) -> u64 {
    counter.fetch_add(1, std::sync::atomic::Ordering::Relaxed)
}

/// A fresh staging path under `download_dir`: the counter is advanced and the
/// time since the Unix epoch in nanoseconds (0 if the clock is before the
/// epoch) is read; the path is `{download_dir}/{nanos}-{n}` for those values.
pub fn new_staging_dir(download_dir: &str, counter: &std::sync::atomic::AtomicU64) -> (r: String)
    ensures
        exists|nanos: u128, n: u64| r@ == staging_path(download_dir@, nanos as nat, n as nat),
{
    let n = next_staging_number(counter);
    let now = system_now();
    let nanos: u128 = match since_unix_epoch(&now) {
        Some(d) => duration_nanos(&d),
        None => 0,
    };
    staging_dir_path(download_dir, nanos, n)
}

} // verus!
