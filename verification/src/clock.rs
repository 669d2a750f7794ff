//! The wall clock: the system time, rendered through chrono as RFC 3339
//! text.
use vstd::prelude::*;
use crate::database::models::opt_view;
use crate::text::owned;

verus! {

#[verifier::external_type_specification]
#[verifier::external_body]
pub struct ExSystemTime(std::time::SystemTime);

/// Reads the system clock: calls `std::time::SystemTime::now`, which does
/// not fail. Nothing is stated of the reading: it depends on the machine.
#[verifier::external_body]
fn system_now() -> std::time::SystemTime {
    std::time::SystemTime::now()
}

/// The whole seconds and the nanoseconds from the Unix epoch to `t`: calls
/// `SystemTime::duration_since(UNIX_EPOCH)`, `None` when `t` lies before the
/// epoch. Trusted only for the nanoseconds being below one billion, as
/// `Duration::subsec_nanos` documents; `t` is opaque, so nothing ties the
/// values to it.
#[verifier::external_body]
fn since_epoch(t: &std::time::SystemTime) -> (r: Option<(u64, u32)>)
    ensures
        r matches Some((_, n)) ==> n < 1_000_000_000,
{
    match t.duration_since(std::time::UNIX_EPOCH) {
        Ok(d) => Some((d.as_secs(), d.subsec_nanos())),
        Err(_) => None,
    }
}

/// What `chrono::DateTime::<Utc>::from_timestamp` makes of a time, as
/// RFC 3339 text (`None` when the date is out of its range).
pub uninterp spec fn rfc3339_of(secs: i64, nanos: u32) -> Option<Seq<char>>;

/// The UTC time `secs` seconds and `nanos` nanoseconds after the Unix epoch
/// as RFC 3339 text: calls `chrono::DateTime::<Utc>::from_timestamp`, which
/// returns `None` when the date is out of its range and does not panic, and
/// renders the date with `to_rfc3339`, which writes into a `String` and does
/// not fail. Trusted to depend on `secs` and `nanos` alone.
#[verifier::external_body]
fn utc_rfc3339(secs: i64, nanos: u32) -> (r: Option<String>)
    ensures
        opt_view(r) == rfc3339_of(secs, nanos),
{
    match chrono::DateTime::<chrono::Utc>::from_timestamp(secs, nanos) {
        Some(d) => Some(d.to_rfc3339()),
        None => None,
    }
}

/// What the clock can read: the RFC 3339 text of some time, or the Unix
/// epoch's stamp.
pub open spec fn clock_reading(s: Seq<char>) -> bool {
    s == epoch_stamp() || exists|secs: i64, nanos: u32| rfc3339_of(secs, nanos) == Some(s)
}

/// The stamp of the Unix epoch, what the clock reads when no date can be
/// had.
pub open spec fn epoch_stamp() -> Seq<char> {
    seq![
        '1', '9', '7', '0', '-', '0', '1', '-', '0', '1', 'T', '0', '0', ':', '0', '0', ':', '0', '0',
        '+', '0', '0', ':', '0', '0',
    ]
}

/// The current UTC time as RFC 3339 text; the Unix epoch's stamp when the
/// clock reads a time that a date cannot hold (before the epoch, or too far
/// after it).
pub(crate) fn now_rfc3339() -> (r: String)
    ensures
        clock_reading(r@),
{
    let t = system_now();
    let fallback = "1970-01-01T00:00:00+00:00";
    proof {
        reveal_strlit("1970-01-01T00:00:00+00:00");
        assert(fallback@ =~= epoch_stamp());
    }
    match since_epoch(&t) {
        Some((secs, nanos)) => {
            if secs <= 0x7fff_ffff_ffff_ffff {
                match utc_rfc3339(secs as i64, nanos) {
                    Some(text) => text,
                    None => owned(fallback),
                }
            } else {
                owned(fallback)
            }
        },
        None => owned(fallback),
    }
}

} // verus!
