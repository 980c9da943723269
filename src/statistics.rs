//! The metric values and the providers that build them from what was read.
use vstd::prelude::*;

use crate::reader::{contents_view, read_value, value_from_contents, Error, Source};
use crate::table::{entry_views, find_value, lookup, parse_table, table, MemEntry};
use crate::text::{
    decimal_at_most, parse_decimal, same_bytes, split_whitespace, tokens, trim_newline, trimmed_len,
};

verus! {

/// Text of the `type` attribute of a battery device.
pub open spec fn battery_type() -> Seq<u8> {
    seq![66u8, 97u8, 116u8, 116u8, 101u8, 114u8, 121u8]
}

/// Text of the `type` attribute of a mains (AC adapter) device.
pub open spec fn mains_type() -> Seq<u8> {
    seq![77u8, 97u8, 105u8, 110u8, 115u8]
}

/// What a power-supply device is, by its `type` attribute.
#[derive(Clone, Copy, Debug, PartialEq, Eq, Structural)]
pub enum PowerKind {
    Battery,
    Mains,
    Unknown,
}

pub open spec fn power_kind(t: Seq<u8>) -> PowerKind {
    if t == battery_type() {
        PowerKind::Battery
    } else if t == mains_type() {
        PowerKind::Mains
    } else {
        PowerKind::Unknown
    }
}

/// Classifies a power-supply device by the contents of its `type` file,
/// less one trailing newline.
pub fn classify(type_contents: &[u8]) -> (r: PowerKind)
    ensures
        r == power_kind(trim_newline(type_contents@)),
{
    let n = trimmed_len(type_contents);
    let t = &type_contents[0..n];
    assert(t@ =~= type_contents@.take(n as int));
    let battery: [u8; 7] = [66, 97, 116, 116, 101, 114, 121];
    let mains: [u8; 5] = [77, 97, 105, 110, 115];
    assert(battery@ =~= battery_type());
    assert(mains@ =~= mains_type());
    if same_bytes(t, battery.as_slice()) {
        PowerKind::Battery
    } else if same_bytes(t, mains.as_slice()) {
        PowerKind::Mains
    } else {
        PowerKind::Unknown
    }
}

/// Reads a flag stored as a number: 1 is set, anything else is clear.
pub fn u8_to_bool(v: u8) -> (r: bool)
    ensures
        r == (v == 1),
{
    match v {
        1 => true,
        _ => false,
    }
}

/// The attribute files of one entry of the power-supply class directory, as
/// read: `None` for a file that could not be read.
pub struct PowerSupply {
    pub kind: Option<Vec<u8>>,
    pub capacity: Option<Vec<u8>>,
    pub charge_now: Option<Vec<u8>>,
    pub charge_full: Option<Vec<u8>>,
    pub online: Option<Vec<u8>>,
}

/// What one power-supply device contributes.
#[derive(Clone, Copy, Debug, PartialEq, Eq, Structural)]
pub enum Reading {
    Battery { capacity: u64, charge_now: u64, charge_full: u64 },
    Mains { online: bool },
}

pub open spec fn device_reading(d: PowerSupply) -> Result<Reading, Error> {
    match contents_view(d.kind) {
        None => Err(Error::Read(Source::PowerType)),
        Some(t) => match power_kind(trim_newline(t)) {
            PowerKind::Unknown => Err(Error::UnknownDevice),
            PowerKind::Mains => match read_value(contents_view(d.online), Source::Online, 255) {
                Err(e) => Err(e),
                Ok(v) => Ok(Reading::Mains { online: v == 1 }),
            },
            PowerKind::Battery => match read_value(
                contents_view(d.capacity),
                Source::Capacity,
                u64::MAX as nat,
            ) {
                Err(e) => Err(e),
                Ok(capacity) => match read_value(
                    contents_view(d.charge_now),
                    Source::ChargeNow,
                    u64::MAX as nat,
                ) {
                    Err(e) => Err(e),
                    Ok(now) => match read_value(
                        contents_view(d.charge_full),
                        Source::ChargeFull,
                        u64::MAX as nat,
                    ) {
                        Err(e) => Err(e),
                        Ok(full) => if full == 0 {
                            Err(Error::Invalid(Source::ChargeFull))
                        } else {
                            Ok(
                                Reading::Battery {
                                    capacity: capacity as u64,
                                    charge_now: now as u64,
                                    charge_full: full as u64,
                                },
                            )
                        },
                    },
                },
            },
        },
    }
}

fn read_device(d: &PowerSupply) -> (r: Result<Reading, Error>)
    ensures
        r == device_reading(*d),
{
    let kind = match &d.kind {
        None => {
            return Err(Error::Read(Source::PowerType));
        },
        Some(t) => classify(t.as_slice()),
    };
    match kind {
        PowerKind::Unknown => Err(Error::UnknownDevice),
        PowerKind::Mains => {
            let v = value_from_contents(&d.online, Source::Online, 255)?;
            Ok(Reading::Mains { online: u8_to_bool(v as u8) })
        },
        PowerKind::Battery => {
            let capacity = value_from_contents(&d.capacity, Source::Capacity, u64::MAX)?;
            let charge_now = value_from_contents(&d.charge_now, Source::ChargeNow, u64::MAX)?;
            let charge_full = value_from_contents(&d.charge_full, Source::ChargeFull, u64::MAX)?;
            if charge_full == 0 {
                Err(Error::Invalid(Source::ChargeFull))
            } else {
                Ok(Reading::Battery { capacity, charge_now, charge_full })
            }
        },
    }
}

/// The charge state of the machine's battery.
///
/// `charge_full` is zero exactly when no battery device was found; the
/// percentage is then zero.
#[derive(Clone, Copy, Debug, PartialEq, Eq, Structural)]
pub struct Battery {
    pub charge_now: u64,
    pub charge_full: u64,
    pub capacity: u64,
    pub is_charging: bool,
}

/// The battery of a machine without one.
pub open spec fn no_battery() -> Battery {
    Battery { charge_now: 0, charge_full: 0, capacity: 0, is_charging: false }
}

/// Adds what one device reports: the first battery found is the one kept,
/// and the machine is charging when any mains device is online.
pub open spec fn absorb(b: Battery, r: Reading) -> Battery {
    match r {
        Reading::Battery { capacity, charge_now, charge_full } => if b.charge_full > 0 {
            b
        } else {
            Battery { charge_now, charge_full, capacity, is_charging: b.is_charging }
        },
        Reading::Mains { online } => Battery { is_charging: b.is_charging || online, ..b },
    }
}

/// The battery state that a list of power-supply devices gives, in the order
/// of the list; the first device that fails decides the error.
pub open spec fn survey(devices: Seq<PowerSupply>) -> Result<Battery, Error>
    decreases devices.len(),
{
    if devices.len() == 0 {
        Ok(no_battery())
    } else {
        match survey(devices.drop_last()) {
            Err(e) => Err(e),
            Ok(b) => match device_reading(devices.last()) {
                Err(e) => Err(e),
                Ok(r) => Ok(absorb(b, r)),
            },
        }
    }
}

proof fn lemma_survey_error_stays(devices: Seq<PowerSupply>, i: int)
    requires
        0 <= i <= devices.len(),
        survey(devices.take(i)) is Err,
    ensures
        survey(devices) == survey(devices.take(i)),
    decreases devices.len() - i,
{
    if i < devices.len() {
        assert(devices.take(i + 1).drop_last() =~= devices.take(i));
        lemma_survey_error_stays(devices, i + 1);
    } else {
        assert(devices.take(i) =~= devices);
    }
}

/// `100 * now / full`, in tenths of a percent and rounded down; zero when
/// `full` is zero.
pub open spec fn percent_tenths(now: nat, full: nat) -> nat {
    if full == 0 {
        0
    } else {
        now * 1000 / full
    }
}

impl Battery {
    /// Builds the battery state from the entries of the power-supply class
    /// directory.
    pub fn new(devices: &Vec<PowerSupply>) -> (r: Result<Battery, Error>)
        ensures
            r == survey(devices@),
    {
        let mut b = Battery { charge_now: 0, charge_full: 0, capacity: 0, is_charging: false };
        let mut i: usize = 0;
        assert(devices@.take(0) =~= Seq::<PowerSupply>::empty());
        while i < devices.len()
            invariant
                i <= devices@.len(),
                survey(devices@.take(i as int)) == Ok::<Battery, Error>(b),
            decreases devices@.len() - i,
        {
            assert(devices@.take(i + 1).drop_last() =~= devices@.take(i as int));
            match read_device(&devices[i]) {
                Err(e) => {
                    proof {
                        lemma_survey_error_stays(devices@, i + 1);
                    }
                    return Err(e);
                },
                Ok(Reading::Battery { capacity, charge_now, charge_full }) => {
                    if b.charge_full == 0 {
                        b = Battery { charge_now, charge_full, capacity, is_charging: b.is_charging };
                    }
                },
                Ok(Reading::Mains { online }) => {
                    b.is_charging = b.is_charging || online;
                },
            }
            i = i + 1;
        }
        assert(devices@.take(i as int) =~= devices@);
        Ok(b)
    }

    /// The charge level in tenths of a percent, rounded down.
    pub fn percentage_tenths(&self) -> (r: u128)
        ensures
            r == percent_tenths(self.charge_now as nat, self.charge_full as nat),
    {
        if self.charge_full == 0 {
            0
        } else {
            (self.charge_now as u128) * 1000 / (self.charge_full as u128)
        }
    }
}

/// The backlight level.
#[derive(Clone, Copy, Debug, PartialEq, Eq, Structural)]
pub struct Brightness {
    pub current: u32,
    pub max: u32,
}

/// `100 * current / max`, rounded down; zero when `max` is zero.
pub open spec fn percent(current: nat, max: nat) -> nat {
    if max == 0 {
        0
    } else {
        current * 100 / max
    }
}

/// The backlight level that the `brightness` and `max_brightness` files give.
pub open spec fn brightness_of(current: Option<Seq<u8>>, max: Option<Seq<u8>>) -> Result<Brightness, Error> {
    match read_value(current, Source::Brightness, u32::MAX as nat) {
        Err(e) => Err(e),
        Ok(c) => match read_value(max, Source::MaxBrightness, u32::MAX as nat) {
            Err(e) => Err(e),
            Ok(m) => if m == 0 {
                Err(Error::Invalid(Source::MaxBrightness))
            } else {
                Ok(Brightness { current: c as u32, max: m as u32 })
            },
        },
    }
}

impl Brightness {
    /// Builds the backlight level from the contents of the `brightness` and
    /// `max_brightness` files.
    pub fn new(current: &Option<Vec<u8>>, max: &Option<Vec<u8>>) -> (r: Result<Brightness, Error>)
        ensures
            r == brightness_of(contents_view(*current), contents_view(*max)),
    {
        let current = value_from_contents(current, Source::Brightness, u32::MAX as u64)?;
        let max = value_from_contents(max, Source::MaxBrightness, u32::MAX as u64)?;
        if max == 0 {
            Err(Error::Invalid(Source::MaxBrightness))
        } else {
            Ok(Brightness { current: current as u32, max: max as u32 })
        }
    }

    /// The backlight level in percent of the maximum, rounded down.
    pub fn percentage(&self) -> (r: u64)
        ensures
            r == percent(self.current as nat, self.max as nat),
    {
        if self.max == 0 {
            0
        } else {
            (self.current as u64) * 100 / (self.max as u64)
        }
    }
}

/// Position, among the whitespace-separated words of the volume query's
/// output, of the word holding the left channel's percentage.
pub const VOLUME_WORD: usize = 4;

/// Position, among the whitespace-separated words of the mute query's output,
/// of the `yes` or `no` word.
pub const MUTE_WORD: usize = 1;

/// The volume level that the volume query prints: the word at `VOLUME_WORD`
/// must be an optional `+` and digits, followed by `%`, of value at most 255.
pub open spec fn volume_level_of(output: Seq<u8>) -> Option<nat> {
    let words = tokens(output);
    if words.len() > VOLUME_WORD && words[VOLUME_WORD as int].len() > 0
        && words[VOLUME_WORD as int].last() == 37 {
        decimal_at_most(words[VOLUME_WORD as int].drop_last(), 255)
    } else {
        None
    }
}

/// The mute state that the mute query prints: the word at `MUTE_WORD` must be
/// `yes` or `no`.
pub open spec fn mute_of(output: Seq<u8>) -> Option<bool> {
    let words = tokens(output);
    if words.len() > MUTE_WORD && words[MUTE_WORD as int] == seq![121u8, 101u8, 115u8] {
        Some(true)
    } else if words.len() > MUTE_WORD && words[MUTE_WORD as int] == seq![110u8, 111u8] {
        Some(false)
    } else {
        None
    }
}

/// Reads the volume level out of the volume query's output.
pub fn parse_volume_level(output: &[u8]) -> (r: Option<u8>)
    ensures
        r matches Some(v) ==> volume_level_of(output@) == Some(v as nat),
        r is None ==> volume_level_of(output@) is None,
{
    let words = split_whitespace(output);
    if words.len() <= VOLUME_WORD {
        return None;
    }
    let word = &words[VOLUME_WORD];
    assert(word@ == tokens(output@)[VOLUME_WORD as int]);
    let n = word.len();
    if n == 0 || word[n - 1] != 37 {
        return None;
    }
    let digits = &word.as_slice()[0..n - 1];
    assert(digits@ =~= word@.drop_last());
    match parse_decimal(digits, 255) {
        Some(v) => Some(v as u8),
        None => None,
    }
}

/// Reads the mute state out of the mute query's output.
pub fn parse_mute(output: &[u8]) -> (r: Option<bool>)
    ensures
        r == mute_of(output@),
{
    let words = split_whitespace(output);
    if words.len() <= MUTE_WORD {
        return None;
    }
    let word = &words[MUTE_WORD];
    assert(word@ == tokens(output@)[MUTE_WORD as int]);
    let yes: [u8; 3] = [121, 101, 115];
    let no: [u8; 2] = [110, 111];
    assert(yes@ =~= seq![121u8, 101u8, 115u8]);
    assert(no@ =~= seq![110u8, 111u8]);
    if same_bytes(word.as_slice(), yes.as_slice()) {
        Some(true)
    } else if same_bytes(word.as_slice(), no.as_slice()) {
        Some(false)
    } else {
        None
    }
}

/// The audio output's volume and mute state.
#[derive(Clone, Copy, Debug, PartialEq, Eq, Structural)]
pub struct Volume {
    pub volume: u8,
    pub muted: bool,
}

/// The audio state that the two queries' outputs give; `None` for a query
/// that could not be run, failed, or printed something other than text.
pub open spec fn volume_from(volume_output: Option<Seq<u8>>, mute_output: Option<Seq<u8>>) -> Result<Volume, Error> {
    match volume_output {
        None => Err(Error::Command(Source::VolumeOutput)),
        Some(vo) => match volume_level_of(vo) {
            None => Err(Error::Parse(Source::VolumeOutput)),
            Some(level) => match mute_output {
                None => Err(Error::Command(Source::MuteOutput)),
                Some(mo) => match mute_of(mo) {
                    None => Err(Error::Parse(Source::MuteOutput)),
                    Some(muted) => Ok(Volume { volume: level as u8, muted }),
                },
            },
        },
    }
}

impl Volume {
    /// Builds the audio state from the standard output of the volume query
    /// and of the mute query.
    pub fn new(volume_output: &Option<Vec<u8>>, mute_output: &Option<Vec<u8>>) -> (r: Result<Volume, Error>)
        ensures
            r == volume_from(contents_view(*volume_output), contents_view(*mute_output)),
    {
        let level = match volume_output {
            None => {
                return Err(Error::Command(Source::VolumeOutput));
            },
            Some(o) => match parse_volume_level(o.as_slice()) {
                None => {
                    return Err(Error::Parse(Source::VolumeOutput));
                },
                Some(v) => v,
            },
        };
        let muted = match mute_output {
            None => {
                return Err(Error::Command(Source::MuteOutput));
            },
            Some(o) => match parse_mute(o.as_slice()) {
                None => {
                    return Err(Error::Parse(Source::MuteOutput));
                },
                Some(m) => m,
            },
        };
        Ok(Volume { volume: level, muted })
    }
}

pub open spec fn mem_free_label() -> Seq<u8> {
    seq![77u8, 101u8, 109u8, 70u8, 114u8, 101u8, 101u8]
}

pub open spec fn mem_total_label() -> Seq<u8> {
    seq![77u8, 101u8, 109u8, 84u8, 111u8, 116u8, 97u8, 108u8]
}

pub open spec fn mem_available_label() -> Seq<u8> {
    seq![77u8, 101u8, 109u8, 65u8, 118u8, 97u8, 105u8, 108u8, 97u8, 98u8, 108u8, 101u8]
}

/// Memory figures, in kilobytes.
#[derive(Clone, Copy, Debug, PartialEq, Eq, Structural)]
pub struct Memory {
    pub free: u32,
    pub used: u32,
    pub available: u32,
    pub total: u32,
}

impl Memory {
    /// Used memory is what is not free, and no more memory is free than
    /// there is.
    pub open spec fn wf(self) -> bool {
        self.free <= self.total && self.used == self.total - self.free
    }
}

/// The number stored under `label`, `None` where there is no such entry.
pub open spec fn field_value(t: Seq<(Seq<u8>, Seq<u8>)>, label: Seq<u8>, source: Source) -> Result<Option<nat>, Error> {
    match lookup(t, label) {
        None => Ok(None),
        Some(v) => match decimal_at_most(v, u32::MAX as nat) {
            None => Err(Error::Parse(source)),
            Some(n) => Ok(Some(n)),
        },
    }
}

/// The memory figures that a memory-info text gives. `MemFree` and
/// `MemTotal` are required, `MemAvailable` is zero where absent, and more
/// free than total memory is refused.
pub open spec fn memory_of(contents: Option<Seq<u8>>) -> Result<Memory, Error> {
    match contents {
        None => Err(Error::Read(Source::MemInfo)),
        Some(c) => {
            let t = table(c);
            match field_value(t, mem_free_label(), Source::MemFree) {
                Err(e) => Err(e),
                Ok(None) => Err(Error::Missing(Source::MemFree)),
                Ok(Some(free)) => match field_value(t, mem_total_label(), Source::MemTotal) {
                    Err(e) => Err(e),
                    Ok(None) => Err(Error::Missing(Source::MemTotal)),
                    Ok(Some(total)) => match field_value(t, mem_available_label(), Source::MemAvailable) {
                        Err(e) => Err(e),
                        Ok(available) => if free > total {
                            Err(Error::Invalid(Source::MemFree))
                        } else {
                            Ok(
                                Memory {
                                    free: free as u32,
                                    used: (total - free) as u32,
                                    available: match available {
                                        Some(a) => a as u32,
                                        None => 0,
                                    },
                                    total: total as u32,
                                },
                            )
                        },
                    },
                },
            }
        },
    }
}

fn read_field(entries: &Vec<MemEntry>, label: &[u8], source: Source) -> (r: Result<Option<u32>, Error>)
    ensures
        r matches Ok(Some(v)) ==> field_value(entry_views(entries@), label@, source) == Ok::<Option<nat>, Error>(Some(v as nat)),
        r matches Ok(None) ==> field_value(entry_views(entries@), label@, source) == Ok::<Option<nat>, Error>(None),
        r matches Err(e) ==> field_value(entry_views(entries@), label@, source) == Err::<Option<nat>, Error>(e),
{
    match find_value(entries, label) {
        None => Ok(None),
        Some(v) => match parse_decimal(v.as_slice(), u32::MAX as u64) {
            None => Err(Error::Parse(source)),
            Some(n) => Ok(Some(n as u32)),
        },
    }
}

impl Memory {
    /// Builds the memory figures from the contents of the memory-info file.
    pub fn new(contents: &Option<Vec<u8>>) -> (r: Result<Memory, Error>)
        ensures
            r == memory_of(contents_view(*contents)),
            r matches Ok(m) ==> m.wf(),
    {
        let c = match contents {
            None => {
                return Err(Error::Read(Source::MemInfo));
            },
            Some(c) => c,
        };
        let entries = parse_table(c.as_slice());
        let free_label: [u8; 7] = [77, 101, 109, 70, 114, 101, 101];
        let total_label: [u8; 8] = [77, 101, 109, 84, 111, 116, 97, 108];
        let available_label: [u8; 12] = [77, 101, 109, 65, 118, 97, 105, 108, 97, 98, 108, 101];
        assert(free_label@ =~= mem_free_label());
        assert(total_label@ =~= mem_total_label());
        assert(available_label@ =~= mem_available_label());
        let free = match read_field(&entries, free_label.as_slice(), Source::MemFree)? {
            None => {
                return Err(Error::Missing(Source::MemFree));
            },
            Some(f) => f,
        };
        let total = match read_field(&entries, total_label.as_slice(), Source::MemTotal)? {
            None => {
                return Err(Error::Missing(Source::MemTotal));
            },
            Some(t) => t,
        };
        let available = match read_field(&entries, available_label.as_slice(), Source::MemAvailable)? {
            None => 0,
            Some(a) => a,
        };
        if free > total {
            return Err(Error::Invalid(Source::MemFree));
        }
        Ok(Memory { free, used: total - free, available, total })
    }
}

/// A charge no greater than the full charge gives a battery level between 0
/// and 100 percent (0 and 1000 tenths).
pub proof fn lemma_battery_percentage_in_range(charge_now: nat, charge_full: nat)
    requires
        charge_now <= charge_full,
    ensures
        0 <= percent_tenths(charge_now, charge_full) <= 1000,
{
    if charge_full > 0 {
        assert(charge_now * 1000 / charge_full <= 1000) by (nonlinear_arith)
            requires
                charge_now <= charge_full,
                charge_full > 0,
        ;
    }
}

/// A backlight level no greater than its maximum gives a percentage between
/// 0 and 100.
pub proof fn lemma_brightness_percentage_in_range(current: nat, max: nat)
    requires
        current <= max,
    ensures
        0 <= percent(current, max) <= 100,
{
    if max > 0 {
        assert(current * 100 / max <= 100) by (nonlinear_arith)
            requires
                current <= max,
                max > 0,
        ;
    }
}

/// Whenever a memory-info text gives memory figures, used memory is total
/// memory less free memory.
pub proof fn lemma_memory_used(contents: Seq<u8>)
    requires
        memory_of(Some(contents)) is Ok,
    ensures
        memory_of(Some(contents))->Ok_0.used == memory_of(Some(contents))->Ok_0.total
            - memory_of(Some(contents))->Ok_0.free,
        memory_of(Some(contents))->Ok_0.free <= memory_of(Some(contents))->Ok_0.total,
{
}

proof fn lemma_survey_ok_before(devices: Seq<PowerSupply>, i: int)
    requires
        0 <= i <= devices.len(),
        forall|j: int| 0 <= j < i ==> device_reading(#[trigger] devices[j]) is Ok,
    ensures
        survey(devices.take(i)) is Ok,
    decreases i,
{
    if i > 0 {
        assert(devices.take(i).drop_last() =~= devices.take(i - 1));
        assert(devices.take(i).last() == devices[i - 1]);
        lemma_survey_ok_before(devices, i - 1);
    }
}

/// A power-supply device whose type is neither battery nor mains makes the
/// whole survey fail; when every device before it reads well, the failure
/// is the unknown-device one.
pub proof fn lemma_unknown_device_fails(devices: Seq<PowerSupply>, i: int)
    requires
        0 <= i < devices.len(),
        contents_view(devices[i].kind) is Some,
        power_kind(trim_newline(contents_view(devices[i].kind)->Some_0)) == PowerKind::Unknown,
    ensures
        survey(devices) is Err,
        (forall|j: int| 0 <= j < i ==> device_reading(#[trigger] devices[j]) is Ok) ==> survey(
            devices,
        ) == Err::<Battery, Error>(Error::UnknownDevice),
{
    assert(devices.take(i + 1).drop_last() =~= devices.take(i));
    assert(devices.take(i + 1).last() == devices[i]);
    assert(device_reading(devices[i]) == Err::<Reading, Error>(Error::UnknownDevice));
    lemma_survey_error_stays(devices, i + 1);
    if forall|j: int| 0 <= j < i ==> device_reading(#[trigger] devices[j]) is Ok {
        lemma_survey_ok_before(devices, i);
    }
}

} // verus!
