//! Decoding of the CMOS real-time clock's registers.
//!
//! The clock hands back either binary or binary-coded-decimal values, and
//! either 24-hour or 12-hour-with-PM-flag hours, announced in its status
//! register. Reading the I/O ports happens outside the crate; this module
//! turns one snapshot of raw register values into a calendar time.
use vstd::prelude::*;

verus! {

/// The raw register values of one real-time-clock reading.
#[derive(Debug, Clone, Copy, PartialEq, Eq, Structural)]
pub struct RtcSnapshot {
    /// Status register B: bit 1 set means 24-hour mode, bit 2 set means
    /// binary (not binary-coded-decimal) values.
    pub status_b: u8,
    pub seconds: u8,
    pub minutes: u8,
    pub hours: u8,
    pub day_of_month: u8,
    pub month: u8,
    pub year: u8,
    /// The century register named at construction of the [`Rtc`].
    pub century: u8,
}

/// A decoded calendar time.
#[derive(Debug, Clone, Copy, PartialEq, Eq, Structural)]
pub struct ClockTime {
    pub year: u16,
    pub month: u8,
    pub day: u8,
    pub hour: u8,
    pub minute: u8,
    pub second: u8,
}

/// The real-time clock, remembering which auxiliary register holds the
/// century.
#[derive(Debug, Clone, Copy, PartialEq, Eq, Structural)]
pub struct Rtc {
    pub century_register: u8,
}

/// The value of a two-digit binary-coded-decimal byte.
pub open spec fn spec_bcd_to_binary(value: u8) -> int {
    10 * (value >> 4) + (value & 0xf)
}

/// A register value under the announced number format: taken as is in
/// binary mode, decoded from binary-coded decimal otherwise.
pub open spec fn spec_normalise(uses_binary: bool, value: u8) -> int {
    if uses_binary {
        value as int
    } else {
        spec_bcd_to_binary(value)
    }
}

/// The hour register decoded: in 24-hour mode a plain binary-coded-decimal
/// value; in 12-hour mode the top bit flags PM and the rest decodes, modulo
/// twelve, with twelve added in the PM half.
pub open spec fn spec_decode_hour(uses_24_hour: bool, hour: u8) -> int {
    if uses_24_hour {
        spec_bcd_to_binary(hour)
    } else {
        let masked = spec_bcd_to_binary((hour & 0x7f) as u8) % 12;
        if hour >> 7 == 1 {
            masked + 12
        } else {
            masked
        }
    }
}

/// The calendar time a snapshot decodes to.
pub open spec fn spec_decode(s: RtcSnapshot) -> ClockTime {
    let uses_24_hour = (s.status_b >> 1) & 1 == 1;
    let uses_binary = (s.status_b >> 2) & 1 == 1;
    ClockTime {
        year: (spec_normalise(uses_binary, s.century) * 100 + spec_normalise(
            uses_binary,
            s.year,
        )) as u16,
        month: spec_normalise(uses_binary, s.month) as u8,
        day: spec_normalise(uses_binary, s.day_of_month) as u8,
        hour: spec_decode_hour(uses_24_hour, s.hours) as u8,
        minute: spec_normalise(uses_binary, s.minutes) as u8,
        second: spec_normalise(uses_binary, s.seconds) as u8,
    }
}

/// The value of a two-digit binary-coded-decimal byte.
pub fn bcd_to_binary(value: u8) -> (r: u8)
    ensures
        r == spec_bcd_to_binary(value),
{
    proof {
        assert(10 * (value >> 4) + (value & 0xf) <= 165) by (bit_vector);
    }
    10 * (value >> 4) + (value & 0xf)
}

impl Rtc {
    /// A clock whose century lives in the given auxiliary register.
    pub fn new(century_register: u8) -> (rtc: Self)
        ensures
            rtc.century_register == century_register,
    {
        Rtc { century_register }
    }

    /// Decode one snapshot of the clock's registers (the `century` field
    /// read from this clock's century register) into a calendar time.
    pub fn time(&self, snapshot: RtcSnapshot) -> (time: ClockTime)
        ensures
            time == spec_decode(snapshot),
    {
        let uses_24_hour = (snapshot.status_b >> 1) & 1 == 1;
        let uses_binary = (snapshot.status_b >> 2) & 1 == 1;

        let second = normalise(uses_binary, snapshot.seconds);
        let minute = normalise(uses_binary, snapshot.minutes);
        let hour = decode_hour(uses_24_hour, snapshot.hours);
        let day = normalise(uses_binary, snapshot.day_of_month);
        let month = normalise(uses_binary, snapshot.month);
        let year = normalise(uses_binary, snapshot.year);
        let century = normalise(uses_binary, snapshot.century);

        ClockTime {
            year: (century as u16) * 100 + (year as u16),
            month,
            day,
            hour,
            minute,
            second,
        }
    }
}

/// A register value under the announced number format.
fn normalise(uses_binary: bool, value: u8) -> (r: u8)
    ensures
        r == spec_normalise(uses_binary, value),
        r <= 255,
{
    if uses_binary {
        value
    } else {
        bcd_to_binary(value)
    }
}

/// The hour register decoded.
fn decode_hour(uses_24_hour: bool, hour: u8) -> (r: u8)
    ensures
        r == spec_decode_hour(uses_24_hour, hour),
{
    if uses_24_hour {
        bcd_to_binary(hour)
    } else {
        let masked = bcd_to_binary(hour & 0x7f) % 12;
        if hour >> 7 == 1 {
            masked + 12
        } else {
            masked
        }
    }
}

} // verus!
