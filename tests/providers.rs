use status_bar::reader::{value_from_contents, Error, Source};
use status_bar::statistics::{
    classify, parse_mute, parse_volume_level, u8_to_bool, Battery, Brightness, Memory, PowerKind,
    PowerSupply, Volume,
};

fn file(text: &str) -> Option<Vec<u8>> {
    Some(text.as_bytes().to_vec())
}

fn battery_device(capacity: &str, now: &str, full: &str) -> PowerSupply {
    PowerSupply {
        kind: file("Battery\n"),
        capacity: file(capacity),
        charge_now: file(now),
        charge_full: file(full),
        online: None,
    }
}

fn mains_device(online: &str) -> PowerSupply {
    PowerSupply { kind: file("Mains\n"), capacity: None, charge_now: None, charge_full: None, online: file(online) }
}

#[test]
fn value_is_read_without_trailing_newlines() {
    assert_eq!(value_from_contents(&file("42\n"), Source::Capacity, u64::MAX), Ok(42));
    assert_eq!(value_from_contents(&file("7"), Source::Capacity, u64::MAX), Ok(7));
    assert_eq!(value_from_contents(&file("+42\n"), Source::Capacity, u64::MAX), Ok(42));
    assert_eq!(value_from_contents(&file("+255"), Source::Online, 255), Ok(255));
    assert_eq!(value_from_contents(&file("18446744073709551615"), Source::Capacity, u64::MAX), Ok(u64::MAX));
}

#[test]
fn value_failures_name_their_source() {
    assert_eq!(value_from_contents(&None, Source::ChargeNow, u64::MAX), Err(Error::Read(Source::ChargeNow)));
    assert_eq!(value_from_contents(&file("abc\n"), Source::ChargeNow, u64::MAX), Err(Error::Parse(Source::ChargeNow)));
    assert_eq!(value_from_contents(&file(""), Source::ChargeNow, u64::MAX), Err(Error::Parse(Source::ChargeNow)));
    assert_eq!(value_from_contents(&file("7\n\n"), Source::ChargeNow, u64::MAX), Err(Error::Parse(Source::ChargeNow)));
    assert_eq!(value_from_contents(&file("+\n"), Source::ChargeNow, u64::MAX), Err(Error::Parse(Source::ChargeNow)));
    assert_eq!(value_from_contents(&file("++1"), Source::ChargeNow, u64::MAX), Err(Error::Parse(Source::ChargeNow)));
    assert_eq!(value_from_contents(&file("-1"), Source::ChargeNow, u64::MAX), Err(Error::Parse(Source::ChargeNow)));
    assert_eq!(value_from_contents(&file(" 1"), Source::ChargeNow, u64::MAX), Err(Error::Parse(Source::ChargeNow)));
    assert_eq!(value_from_contents(&file("256"), Source::Online, 255), Err(Error::Parse(Source::Online)));
    assert_eq!(
        value_from_contents(&file("18446744073709551616"), Source::ChargeNow, u64::MAX),
        Err(Error::Parse(Source::ChargeNow))
    );
}

#[test]
fn device_types_are_classified() {
    assert_eq!(classify(b"Battery\n"), PowerKind::Battery);
    assert_eq!(classify(b"Mains"), PowerKind::Mains);
    assert_eq!(classify(b"USB\n"), PowerKind::Unknown);
    assert_eq!(classify(b"battery"), PowerKind::Unknown);
    assert_eq!(classify(b"Battery\n\n"), PowerKind::Unknown);
    assert!(u8_to_bool(1));
    assert!(!u8_to_bool(0));
    assert!(!u8_to_bool(2));
}

#[test]
fn battery_half_charged_on_mains() {
    let devices = vec![battery_device("50\n", "3000\n", "6000\n"), mains_device("1\n")];
    let b = Battery::new(&devices).unwrap();
    assert_eq!(b.charge_now, 3000);
    assert_eq!(b.charge_full, 6000);
    assert_eq!(b.capacity, 50);
    assert!(b.is_charging);
    assert_eq!(b.percentage_tenths(), 500);
}

#[test]
fn battery_percentage_stays_within_range_when_charge_is_below_full() {
    for (now, full) in [(0u64, 1u64), (1, 3), (2, 3), (5999, 6000), (6000, 6000), (u64::MAX, u64::MAX)] {
        let b = Battery { charge_now: now, charge_full: full, capacity: 0, is_charging: false };
        let t = b.percentage_tenths();
        assert!(t <= 1000);
        assert_eq!(t, (now as u128) * 1000 / (full as u128));
    }
    let b = Battery { charge_now: 1, charge_full: 3, capacity: 0, is_charging: false };
    assert_eq!(b.percentage_tenths(), 333);
}

#[test]
fn battery_over_full_is_not_clamped() {
    let devices = vec![battery_device("100", "7000", "6000")];
    let b = Battery::new(&devices).unwrap();
    assert_eq!(b.percentage_tenths(), 1166);
}

#[test]
fn no_battery_gives_zero_and_not_charging() {
    let b = Battery::new(&vec![]).unwrap();
    assert_eq!(b, Battery { charge_now: 0, charge_full: 0, capacity: 0, is_charging: false });
    assert_eq!(b.percentage_tenths(), 0);
    let b = Battery::new(&vec![mains_device("0")]).unwrap();
    assert!(!b.is_charging);
    assert_eq!(b.percentage_tenths(), 0);
}

#[test]
fn first_battery_wins() {
    let devices = vec![battery_device("10", "100", "1000"), battery_device("90", "900", "1000")];
    let b = Battery::new(&devices).unwrap();
    assert_eq!(b.capacity, 10);
    assert_eq!(b.percentage_tenths(), 100);
}

#[test]
fn unknown_device_type_fails() {
    let usb = PowerSupply { kind: file("USB\n"), capacity: None, charge_now: None, charge_full: None, online: None };
    let devices = vec![battery_device("50", "3000", "6000"), usb];
    assert_eq!(Battery::new(&devices), Err(Error::UnknownDevice));
}

#[test]
fn battery_attribute_failures() {
    let devices = vec![battery_device("50", "oops", "6000")];
    assert_eq!(Battery::new(&devices), Err(Error::Parse(Source::ChargeNow)));
    let mut d = battery_device("50", "3000", "6000");
    d.capacity = None;
    assert_eq!(Battery::new(&vec![d]), Err(Error::Read(Source::Capacity)));
    let devices = vec![battery_device("50", "0", "0")];
    assert_eq!(Battery::new(&devices), Err(Error::Invalid(Source::ChargeFull)));
    let untyped = PowerSupply { kind: None, capacity: None, charge_now: None, charge_full: None, online: None };
    assert_eq!(Battery::new(&vec![untyped]), Err(Error::Read(Source::PowerType)));
    assert_eq!(Battery::new(&vec![mains_device("yes")]), Err(Error::Parse(Source::Online)));
}

#[test]
fn brightness_half() {
    let b = Brightness::new(&file("120\n"), &file("240\n")).unwrap();
    assert_eq!(b, Brightness { current: 120, max: 240 });
    assert_eq!(b.percentage(), 50);
}

#[test]
fn brightness_percentage_stays_within_range() {
    for (c, m) in [(0u32, 1u32), (1, 3), (239, 240), (240, 240), (u32::MAX, u32::MAX)] {
        let p = Brightness { current: c, max: m }.percentage();
        assert!(p <= 100);
        assert_eq!(p, (c as u64) * 100 / (m as u64));
    }
}

#[test]
fn brightness_failures() {
    assert_eq!(Brightness::new(&None, &file("240")), Err(Error::Read(Source::Brightness)));
    assert_eq!(Brightness::new(&file("120"), &file("x")), Err(Error::Parse(Source::MaxBrightness)));
    assert_eq!(Brightness::new(&file("120"), &file("0")), Err(Error::Invalid(Source::MaxBrightness)));
}

const VOLUME_OUTPUT: &str =
    "Volume: front-left: 65536 / 65% / -11.23 dB,   front-right: 65536 / 65% / -11.23 dB\n        balance 0.00\n";

#[test]
fn volume_level_is_read_from_its_word() {
    assert_eq!(parse_volume_level(VOLUME_OUTPUT.as_bytes()), Some(65));
    assert_eq!(parse_volume_level(b"Volume: front-left: 65536 / 100% / 0.00 dB"), Some(100));
    assert_eq!(parse_volume_level(b"Volume: front-left: 0 /   0% / -inf dB"), Some(0));
    assert_eq!(parse_volume_level(b"Volume: front-left: 65536 / +65% / 0 dB"), Some(65));
}

#[test]
fn malformed_volume_output_is_refused() {
    assert_eq!(parse_volume_level(b""), None);
    assert_eq!(parse_volume_level(b"Volume: front-left: 65536 / 65 / 0 dB"), None);
    assert_eq!(parse_volume_level(b"Volume: front-left: 65536 / x% / 0 dB"), None);
    assert_eq!(parse_volume_level(b"Volume: front-left: 65536 / 300% / 0 dB"), None);
    assert_eq!(parse_volume_level(b"Volume: front-left: 65536"), None);
}

#[test]
fn mute_word_is_read() {
    assert_eq!(parse_mute(b"Mute: yes\n"), Some(true));
    assert_eq!(parse_mute(b"Mute: no\n"), Some(false));
    assert_eq!(parse_mute(b"Mute: maybe\n"), None);
    assert_eq!(parse_mute(b"Mute:\n"), None);
    assert_eq!(parse_mute(b"Mute: yess"), None);
}

#[test]
fn volume_from_both_queries() {
    let v = Volume::new(&file(VOLUME_OUTPUT), &file("Mute: yes\n")).unwrap();
    assert_eq!(v, Volume { volume: 65, muted: true });
    let v = Volume::new(&file(VOLUME_OUTPUT), &file("Mute: no\n")).unwrap();
    assert!(!v.muted);
}

#[test]
fn volume_failures() {
    assert_eq!(Volume::new(&None, &file("Mute: no")), Err(Error::Command(Source::VolumeOutput)));
    assert_eq!(Volume::new(&file(VOLUME_OUTPUT), &None), Err(Error::Command(Source::MuteOutput)));
    assert_eq!(Volume::new(&file("Volume:"), &file("Mute: no")), Err(Error::Parse(Source::VolumeOutput)));
    assert_eq!(Volume::new(&file(VOLUME_OUTPUT), &file("Mute: on")), Err(Error::Parse(Source::MuteOutput)));
}

const MEMINFO: &str = "MemTotal:        8000000 kB\nMemFree:         2000000 kB\nMemAvailable:    5000000 kB\nBuffers:           12345 kB\n";

#[test]
fn memory_from_table() {
    let m = Memory::new(&file(MEMINFO)).unwrap();
    assert_eq!(m, Memory { free: 2000000, used: 6000000, available: 5000000, total: 8000000 });
}

#[test]
fn memory_used_is_total_less_free() {
    for (free, total) in [(0u32, 0u32), (0, 10), (10, 10), (1, u32::MAX), (2000000, 8000000)] {
        let text = format!("MemTotal: {} kB\nMemFree: {} kB\n", total, free);
        let m = Memory::new(&file(&text)).unwrap();
        assert_eq!(m.used, total - free);
        assert_eq!(m.free, free);
        assert_eq!(m.total, total);
    }
}

#[test]
fn memory_available_defaults_to_zero() {
    let m = Memory::new(&file("MemTotal: 100 kB\nMemFree: 40 kB\n")).unwrap();
    assert_eq!(m, Memory { free: 40, used: 60, available: 0, total: 100 });
}

#[test]
fn memory_failures() {
    assert_eq!(Memory::new(&None), Err(Error::Read(Source::MemInfo)));
    assert_eq!(Memory::new(&file("MemTotal: 100 kB\n")), Err(Error::Missing(Source::MemFree)));
    assert_eq!(Memory::new(&file("MemFree: 100 kB\n")), Err(Error::Missing(Source::MemTotal)));
    assert_eq!(Memory::new(&file("MemTotal: 100 kB\nMemFree: lots\n")), Err(Error::Parse(Source::MemFree)));
    assert_eq!(
        Memory::new(&file("MemTotal: 100 kB\nMemFree: 10 kB\nMemAvailable: ?\n")),
        Err(Error::Parse(Source::MemAvailable))
    );
    assert_eq!(Memory::new(&file("MemTotal: 100 kB\nMemFree: 200 kB\n")), Err(Error::Invalid(Source::MemFree)));
    assert_eq!(Memory::new(&file("MemTotal: 4294967296 kB\nMemFree: 1 kB\n")), Err(Error::Parse(Source::MemTotal)));
}
