//! The real-time clock's date and time, decoded from its CMOS registers, and
//! the clock text shown on screen.
use vstd::prelude::*;
use crate::text::{decimal, push_char, push_decimal};

verus! {

/// CMOS register selecting port and data port.
pub const CMOS_ADDRESS: u16 = 0x70;
pub const CMOS_DATA: u16 = 0x71;

/// A calendar date and time of day.
#[derive(Clone, Copy, PartialEq, Eq, Structural)]
pub struct DateTime {
    pub year: u16,
    pub month: u8,
    pub day: u8,
    pub hour: u8,
    pub minute: u8,
    pub second: u8,
}

/// The value of a two-digit binary-coded decimal byte.
pub open spec fn bcd_value(bcd: u8) -> u8 {
    ((bcd / 16) * 10 + (bcd & 0x0F)) as u8
}

/// Decodes a binary-coded decimal byte (high nibble tens, low nibble units).
pub fn bcd_to_binary(bcd: u8) -> (v: u8)
    ensures
        v == bcd_value(bcd),
{
    assert(bcd & 0x0F <= 15) by (bit_vector);
    (bcd / 16) * 10 + (bcd & 0x0F)
}

/// Whether the status register A says an update is in progress (the clock
/// registers are then not to be read).
pub fn update_in_progress(status_a: u8) -> (b: bool)
    ensures
        b == (status_a & 0x80 != 0),
{
    status_a & 0x80 != 0
}

/// The date and time held in the clock registers (seconds, minutes, hours,
/// day, month, two-digit year), in binary-coded decimal unless bit 2 of
/// status register B says binary; the year is counted from 2000.
pub fn datetime_from_registers(second: u8, minute: u8, hour: u8, day: u8, month: u8, year: u8, status_b: u8) -> (dt: DateTime)
    ensures
        ({
            let bcd = status_b & 0x04 == 0;
            let f = |x: u8| if bcd { bcd_value(x) } else { x };
            dt == DateTime {
                second: f(second),
                minute: f(minute),
                hour: f(hour),
                day: f(day),
                month: f(month),
                year: (2000 + f(year)) as u16,
            }
        }),
{
    let is_bcd = status_b & 0x04 == 0;
    if is_bcd {
        DateTime {
            second: bcd_to_binary(second),
            minute: bcd_to_binary(minute),
            hour: bcd_to_binary(hour),
            day: bcd_to_binary(day),
            month: bcd_to_binary(month),
            year: 2000 + bcd_to_binary(year) as u16,
        }
    } else {
        DateTime { second, minute, hour, day, month, year: 2000 + year as u16 }
    }
}

/// A number written with at least two digits.
pub open spec fn two_digits(n: nat) -> Seq<char> {
    if n < 10 {
        seq!['0'] + decimal(n)
    } else {
        decimal(n)
    }
}

fn push_two_digits(s: &mut String, n: u8)
    ensures
        final(s)@ == old(s)@ + two_digits(n as nat),
{
    if n < 10 {
        push_char(s, '0');
        push_decimal(s, n as u64);
        assert(old(s)@.push('0') + decimal(n as nat) =~= old(s)@ + two_digits(n as nat));
    } else {
        push_decimal(s, n as u64);
    }
}

/// The clock text "HH:MM" of a date and time.
pub fn format_time(dt: &DateTime) -> (s: String)
    ensures
        s@ == two_digits(dt.hour as nat) + seq![':'] + two_digits(dt.minute as nat),
{
    let mut s = String::new();
    push_two_digits(&mut s, dt.hour);
    push_char(&mut s, ':');
    push_two_digits(&mut s, dt.minute);
    s
}

} // verus!
