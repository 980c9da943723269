//! Rendering the metric values, with the local date and time, as one status
//! line.
use vstd::prelude::*;

use chrono::{Datelike, Timelike};

use crate::statistics::{percent, percent_tenths, Battery, Brightness, Memory, Volume};
use crate::text::{decimal, digit_char, digit_text, push_decimal};

verus! {

/// `+` while charging, `-` otherwise.
pub open spec fn charging_marker(charging: bool) -> Seq<char> {
    if charging {
        seq!['+']
    } else {
        seq!['-']
    }
}

/// `(x)` when muted, nothing otherwise.
pub open spec fn mute_marker(muted: bool) -> Seq<char> {
    if muted {
        seq!['(', 'x', ')']
    } else {
        seq![]
    }
}

/// The marker that shows whether the battery is charging.
pub fn battery_is_charging(charging: bool) -> (r: String)
    ensures
        r@ == charging_marker(charging),
{
    proof {
        reveal_strlit("+");
        reveal_strlit("-");
    }
    if charging {
        String::from_str("+")
    } else {
        String::from_str("-")
    }
}

/// The marker that shows whether the audio output is muted.
pub fn volume_is_muted(muted: bool) -> (r: String)
    ensures
        r@ == mute_marker(muted),
{
    proof {
        reveal_strlit("(x)");
        reveal_strlit("");
    }
    if muted {
        String::from_str("(x)")
    } else {
        String::from_str("")
    }
}

/// A local calendar date and wall-clock time.
#[derive(Clone, Copy, Debug, PartialEq, Eq, Structural)]
pub struct LocalTime {
    pub year: i32,
    pub month: u32,
    pub day: u32,
    pub hour: u32,
    pub minute: u32,
    pub second: u32,
}

impl LocalTime {
    pub open spec fn wf(self) -> bool {
        1 <= self.month <= 12 && 1 <= self.day <= 31 && self.hour < 24 && self.minute < 60
            && self.second < 60
    }
}

/// Relies on chrono's `From<SystemTime>` for `DateTime<Local>` to turn the
/// system clock into the local date and time (a clock before 1970 becomes a
/// negative timestamp); the ranges stated are those that chrono's
/// `Datelike` and `Timelike` accessors document.
#[verifier::external_body]
fn local_now() -> (r: LocalTime)
    ensures
        r.wf(),
{
    let now = chrono::DateTime::<chrono::Local>::from(std::time::SystemTime::now());
    LocalTime {
        year: now.year(),
        month: now.month(),
        day: now.day(),
        hour: now.hour(),
        minute: now.minute(),
        second: now.second(),
    }
}

/// `n` as two decimal digits, with a leading zero below ten.
pub open spec fn two_digits(n: nat) -> Seq<char> {
    seq![digit_char(n / 10), digit_char(n % 10)]
}

/// `HH:MM:SS`.
pub open spec fn time_text(t: LocalTime) -> Seq<char> {
    two_digits(t.hour as nat) + seq![':'] + two_digits(t.minute as nat) + seq![':'] + two_digits(
        t.second as nat,
    )
}

/// `dd/mm/yy`, the year taken modulo 100.
pub open spec fn date_text(t: LocalTime) -> Seq<char> {
    two_digits(t.day as nat) + seq!['/'] + two_digits(t.month as nat) + seq!['/'] + two_digits(
        (t.year as int % 100) as nat,
    )
}

fn push_two_digits(out: &mut String, n: u32)
    requires
        n < 100,
    ensures
        final(out)@ == old(out)@ + two_digits(n as nat),
{
    out.append(digit_text((n / 10) as u128));
    out.append(digit_text((n % 10) as u128));
    assert(final(out)@ =~= old(out)@ + two_digits(n as nat));
}

/// The year modulo 100, as a non-negative number.
fn year_in_century(year: i32) -> (r: u32)
    ensures
        r as int == year as int % 100,
{
    if year >= 0 {
        (year as u32) % 100
    } else {
        let a: u32 = (0i64 - year as i64) as u32;
        let m = a % 100;
        if m == 0 {
            assert(year as int % 100 == 0) by (nonlinear_arith)
                requires
                    a as int == -(year as int),
                    a as int % 100 == 0,
            ;
            0
        } else {
            assert(year as int % 100 == 100 - m) by (nonlinear_arith)
                requires
                    a as int == -(year as int),
                    m as int == a as int % 100,
                    m > 0,
            ;
            100 - m
        }
    }
}

/// The date and the time of day, as displayed.
pub struct Date {
    pub date: String,
    pub time: String,
}

impl Date {
    /// Renders a local date and time.
    pub fn from_local(t: &LocalTime) -> (r: Date)
        requires
            t.wf(),
        ensures
            r.date@ == date_text(*t),
            r.time@ == time_text(*t),
    {
        proof {
            reveal_strlit(":");
            reveal_strlit("/");
        }
        let mut time = String::new();
        push_two_digits(&mut time, t.hour);
        time.append(":");
        push_two_digits(&mut time, t.minute);
        time.append(":");
        push_two_digits(&mut time, t.second);
        let mut date = String::new();
        push_two_digits(&mut date, t.day);
        date.append("/");
        push_two_digits(&mut date, t.month);
        date.append("/");
        push_two_digits(&mut date, year_in_century(t.year));
        assert(time@ =~= time_text(*t));
        assert(date@ =~= date_text(*t));
        Date { date, time }
    }
}

/// The current local date and time, rendered.
pub fn date() -> (r: Date)
    ensures
        exists|t: LocalTime| t.wf() && r.date@ == date_text(t) && r.time@ == time_text(t),
{
    let t = local_now();
    Date::from_local(&t)
}

/// The separator between the fields of the status line.
pub open spec fn separator() -> Seq<char> {
    seq![' ', '|', ' ']
}

/// A number of tenths written with one decimal.
pub open spec fn tenths_text(t: nat) -> Seq<char> {
    decimal(t / 10) + seq!['.'] + decimal(t % 10)
}

/// The volume field: the level in percent, then the mute marker.
pub open spec fn volume_field(volume: Volume) -> Seq<char> {
    decimal(volume.volume as nat) + seq!['%'] + mute_marker(volume.muted)
}

/// The brightness field: the level in whole percent.
pub open spec fn brightness_field(brightness: Brightness) -> Seq<char> {
    decimal(percent(brightness.current as nat, brightness.max as nat)) + seq!['%']
}

/// The battery field: the charging marker, then the level in percent with
/// one decimal.
pub open spec fn battery_field(battery: Battery) -> Seq<char> {
    charging_marker(battery.is_charging) + tenths_text(
        percent_tenths(battery.charge_now as nat, battery.charge_full as nat),
    ) + seq!['%']
}

/// The memory field: used over total kilobytes.
pub open spec fn memory_field(memory: Memory) -> Seq<char> {
    decimal(memory.used as nat) + seq![' ', '/', ' '] + decimal(memory.total as nat)
}

/// The status line: volume, brightness, battery, memory, time and date, in
/// that order, between separators.
pub open spec fn status_text(
    battery: Battery,
    brightness: Brightness,
    volume: Volume,
    memory: Memory,
    time: Seq<char>,
    date: Seq<char>,
) -> Seq<char> {
    volume_field(volume) + separator() + brightness_field(brightness) + separator()
        + battery_field(battery) + separator() + memory_field(memory) + separator() + time
        + separator() + date
}

fn push_volume(out: &mut String, volume: &Volume)
    ensures
        final(out)@ == old(out)@ + volume_field(*volume),
{
    proof {
        reveal_strlit("%");
    }
    push_decimal(out, volume.volume as u128);
    out.append("%");
    out.append(volume_is_muted(volume.muted).as_str());
    assert(final(out)@ =~= old(out)@ + volume_field(*volume));
}

fn push_brightness(out: &mut String, brightness: &Brightness)
    ensures
        final(out)@ == old(out)@ + brightness_field(*brightness),
{
    proof {
        reveal_strlit("%");
    }
    push_decimal(out, brightness.percentage() as u128);
    out.append("%");
    assert(final(out)@ =~= old(out)@ + brightness_field(*brightness));
}

fn push_battery(out: &mut String, battery: &Battery)
    ensures
        final(out)@ == old(out)@ + battery_field(*battery),
{
    proof {
        reveal_strlit("%");
        reveal_strlit(".");
    }
    out.append(battery_is_charging(battery.is_charging).as_str());
    let tenths = battery.percentage_tenths();
    push_decimal(out, tenths / 10);
    out.append(".");
    push_decimal(out, tenths % 10);
    out.append("%");
    assert(final(out)@ =~= old(out)@ + battery_field(*battery));
}

fn push_memory(out: &mut String, memory: &Memory)
    ensures
        final(out)@ == old(out)@ + memory_field(*memory),
{
    proof {
        reveal_strlit(" / ");
    }
    push_decimal(out, memory.used as u128);
    out.append(" / ");
    push_decimal(out, memory.total as u128);
    assert(final(out)@ =~= old(out)@ + memory_field(*memory));
}

/// Renders the status line.
pub fn status_line(
    battery: &Battery,
    brightness: &Brightness,
    volume: &Volume,
    memory: &Memory,
    date: &Date,
) -> (r: String)
    ensures
        r@ == status_text(*battery, *brightness, *volume, *memory, date.time@, date.date@),
{
    proof {
        reveal_strlit(" | ");
    }
    let mut out = String::new();
    push_volume(&mut out, volume);
    out.append(" | ");
    push_brightness(&mut out, brightness);
    out.append(" | ");
    push_battery(&mut out, battery);
    out.append(" | ");
    push_memory(&mut out, memory);
    out.append(" | ");
    out.append(date.time.as_str());
    out.append(" | ");
    out.append(date.date.as_str());
    assert(out@ =~= status_text(*battery, *brightness, *volume, *memory, date.time@, date.date@));
    out
}

/// The line shown when a metric could not be read: a placeholder, then the
/// time and the date.
pub open spec fn fallback_text(time: Seq<char>, date: Seq<char>) -> Seq<char> {
    seq!['N', '/', 'A'] + separator() + time + separator() + date
}

/// Renders the line shown when a metric could not be read.
pub fn fallback_line(date: &Date) -> (r: String)
    ensures
        r@ == fallback_text(date.time@, date.date@),
{
    proof {
        reveal_strlit("N/A");
        reveal_strlit(" | ");
    }
    let mut out = String::from_str("N/A");
    out.append(" | ");
    out.append(date.time.as_str());
    out.append(" | ");
    out.append(date.date.as_str());
    assert(out@ =~= fallback_text(date.time@, date.date@));
    out
}

} // verus!
