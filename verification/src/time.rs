//! Points in time: the calls into `chrono` that check and render them, and the
//! reading of the system clock.
use vstd::prelude::*;
use chrono::TimeZone;

verus! {

/// Whether `chrono` accepts `secs` seconds and `nanos` nanoseconds past the Unix
/// epoch as a UTC date and time (`TimeZone::timestamp_opt` gives a value).
pub uninterp spec fn chrono_accepts(secs: i64, nanos: u32) -> bool;

/// The RFC 3339 text that `chrono` renders for that UTC date and time
/// (`SecondsFormat::AutoSi`): no fraction, or 3, 6 or 9 fractional digits, the
/// fewest that hold the nanoseconds, and `Z` for the offset.
pub uninterp spec fn chrono_rfc3339(secs: i64, nanos: u32) -> Seq<char>;

/// The system clock gave no point in time: it reads before the Unix epoch, or past
/// the last date that `chrono` accepts.
#[derive(Clone, Copy, Debug)]
pub struct ClockUnavailable;

/// A point in time: whole seconds since the Unix epoch and the nanoseconds past
/// them, always one that `chrono` accepts.
#[derive(Clone, Copy, Debug)]
pub struct Timestamp {
    secs: i64,
    nanos: u32,
}

impl View for Timestamp {
    type V = (i64, u32);

    closed spec fn view(&self) -> (i64, u32) {
        (self.secs, self.nanos)
    }
}

/// Whole seconds since the Unix epoch of some point in time that `chrono` accepts,
/// such as the seconds of a clock reading.
pub open spec fn accepted_seconds(secs: i64) -> bool {
    exists|nanos: u32| #[trigger] chrono_accepts(secs, nanos)
}

/// `chrono::Utc.timestamp_opt(secs, nanos).latest()`: gives a point in time exactly
/// when `chrono` accepts the pair, and that point is the pair itself. `chrono`
/// refuses two seconds' worth of nanoseconds or more, and accepts less than one
/// second's worth within about 250000 years of the epoch (its dates span years
/// -262143 to 262142).
#[verifier::external_body]
fn checked_timestamp(secs: i64, nanos: u32) -> (r: Option<Timestamp>)
    ensures
        r is Some <==> chrono_accepts(secs, nanos),
        r matches Some(t) ==> t@ == (secs, nanos),
        nanos >= 2_000_000_000 ==> r is None,
        nanos < 1_000_000_000 && -8_000_000_000_000 <= secs <= 8_000_000_000_000 ==> r is Some,
{
    match chrono::Utc.timestamp_opt(secs, nanos).latest() {
        Some(_) => Some(Timestamp { secs, nanos }),
        None => None,
    }
}

/// `std::time::SystemTime`, declared so that a reading of the clock can be held.
#[verifier::external_type_specification]
#[verifier::external_body]
pub struct ExSystemTime(std::time::SystemTime);

/// `SystemTime::now()`: a reading of the system clock. Nothing is stated of it.
#[verifier::external_body]
fn system_now() -> (r: std::time::SystemTime) {
    std::time::SystemTime::now()
}

/// `SystemTime::duration_since(UNIX_EPOCH)`: how long after the Unix epoch the
/// reading lies, or none where it lies before the epoch. Which of the two comes
/// back depends on the reading, of which nothing is stated.
#[verifier::external_body]
fn since_unix_epoch(t: &std::time::SystemTime) -> (r: Option<core::time::Duration>) {
    t.duration_since(std::time::UNIX_EPOCH).ok()
}

/// `Duration::as_secs`: the whole seconds of a duration. Nothing is stated of a
/// duration's contents.
#[verifier::external_body]
fn duration_secs(d: &core::time::Duration) -> (r: u64) {
    d.as_secs()
}

/// `Duration::subsec_nanos`: the nanoseconds past the whole seconds, which the
/// documentation promises are less than one billion.
#[verifier::external_body]
fn duration_subsec_nanos(d: &core::time::Duration) -> (r: u32)
    ensures
        r < 1_000_000_000,
{
    d.subsec_nanos()
}

/// `DateTime::to_rfc3339_opts(SecondsFormat::AutoSi, true)` of the UTC date and
/// time given by the pair, which `chrono` must accept.
#[verifier::external_body]
fn rfc3339_text(secs: i64, nanos: u32) -> (r: String)
    requires
        chrono_accepts(secs, nanos),
    ensures
        r@ == chrono_rfc3339(secs, nanos),
{
    chrono::Utc.timestamp_opt(secs, nanos).unwrap().to_rfc3339_opts(chrono::SecondsFormat::AutoSi, true)
}

/// Whether `secs` whole seconds and `nanos` nanoseconds are a reading of the system
/// clock: what `Duration::as_secs` and `Duration::subsec_nanos` gave for the time
/// since the Unix epoch of what `SystemTime::now` gave.
pub closed spec fn clock_reads(secs: u64, nanos: u32) -> bool {
    exists|reading: std::time::SystemTime, d: core::time::Duration|
        #![trigger call_ensures(since_unix_epoch, (&reading,), Some(d))]
        call_ensures(system_now, (), reading) && call_ensures(since_unix_epoch, (&reading,), Some(d))
            && call_ensures(duration_secs, (&d,), secs) && call_ensures(duration_subsec_nanos, (&d,), nanos)
}

/// Whether the system clock was read as lying before the Unix epoch.
pub closed spec fn clock_before_epoch() -> bool {
    exists|reading: std::time::SystemTime|
        #![trigger call_ensures(since_unix_epoch, (&reading,), None::<core::time::Duration>)]
        call_ensures(system_now, (), reading) && call_ensures(since_unix_epoch, (&reading,), None::<core::time::Duration>)
}

/// Whole seconds since the Unix epoch of a reading of the system clock.
pub open spec fn clock_seconds(secs: i64) -> bool {
    secs >= 0 && exists|nanos: u32| #[trigger] clock_reads(secs as u64, nanos)
}

impl Timestamp {
    #[verifier::type_invariant]
    spec fn accepted(self) -> bool {
        chrono_accepts(self.secs, self.nanos)
    }

    /// The point `secs` seconds and `nanos` nanoseconds past the Unix epoch, if
    /// `chrono` accepts it.
    pub fn new(secs: i64, nanos: u32) -> (r: Option<Timestamp>)
        ensures
            r is Some <==> chrono_accepts(secs, nanos),
            r matches Some(t) ==> t@ == (secs, nanos),
            nanos >= 2_000_000_000 ==> r is None,
            nanos < 1_000_000_000 && -8_000_000_000_000 <= secs <= 8_000_000_000_000 ==> r is Some,
    {
        checked_timestamp(secs, nanos)
    }

    /// The current time, read from the system clock, as `chrono::Utc::now` reads it
    /// (the time since the Unix epoch); none where the clock reads before the epoch
    /// or past the last date `chrono` accepts, where `Utc::now` would panic.
    pub fn now() -> (r: Option<Timestamp>)
        ensures
            r matches Some(t) ==> 0 <= t@.0 && t@.1 < 1_000_000_000 && chrono_accepts(t@.0, t@.1),
            r matches Some(t) ==> clock_reads(t@.0 as u64, t@.1),
            r is None ==> clock_before_epoch() || exists|secs: u64, nanos: u32|
                #[trigger] clock_reads(secs, nanos) && (secs > 9_223_372_036_854_775_807u64 || !chrono_accepts(secs as i64, nanos)),
    {
        let reading = system_now();
        match since_unix_epoch(&reading) {
            Some(d) => {
                let secs = duration_secs(&d);
                let nanos = duration_subsec_nanos(&d);
                proof {
                    assert(call_ensures(since_unix_epoch, (&reading,), Some(d)));
                    assert(clock_reads(secs, nanos));
                }
                if secs <= 9_223_372_036_854_775_807u64 {
                    Timestamp::new(secs as i64, nanos)
                } else {
                    None
                }
            },
            None => {
                proof {
                    assert(call_ensures(since_unix_epoch, (&reading,), None::<core::time::Duration>));
                    assert(clock_before_epoch());
                }
                None
            },
        }
    }

    /// Whole seconds since the Unix epoch (`DateTime::timestamp`).
    pub fn secs(&self) -> (r: i64)
        ensures
            r == self@.0,
    {
        self.secs
    }

    /// Nanoseconds past the whole second.
    pub fn nanos(&self) -> (r: u32)
        ensures
            r == self@.1,
    {
        self.nanos
    }

    /// The RFC 3339 rendering of this point in time.
    pub fn to_rfc3339(&self) -> (r: String)
        ensures
            r@ == chrono_rfc3339(self@.0, self@.1),
    {
        proof {
            use_type_invariant(self);
        }
        rfc3339_text(self.secs, self.nanos)
    }
}

} // verus!
